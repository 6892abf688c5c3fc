//! What holds of the answer cache over any history of calls.
use crate::clock::{Duration, Instant};
use crate::dns::cache;
use crate::dns::cache::{CacheModel, NameRow, REVERSE_TTL_FLOOR, SHARDS};
use crate::dns::cache_laws;
use crate::dns::families::QueryFamilies;
use crate::dns::lru_store::NameHolder;
use crate::net::IpAddr;
use crate::text;
use vstd::prelude::*;

verus! {

/// One call that changes the cache.
pub enum CacheCall {
    /// An answer is put, with or without its source.
    Put {
        domain: Seq<char>,
        ips: Seq<IpAddr>,
        ttl: Duration,
        source: Option<Seq<char>>,
        now: Instant,
    },
    /// One family's answer is merged.
    Merge {
        domain: Seq<char>,
        family: QueryFamilies,
        ips: Seq<IpAddr>,
        ttl: Duration,
        source: Option<Seq<char>>,
        now: Instant,
    },
    /// Captured mappings are kept again.
    Restore { rows: Seq<NameRow>, now: Instant },
}

/// The cache after a call.
pub open spec fn after_call(m: CacheModel, call: CacheCall) -> CacheModel {
    match call {
        CacheCall::Put { domain, ips, ttl, source, now } => m.put(domain, ips, ttl, source, now),
        CacheCall::Merge { domain, family, ips, ttl, source, now } => m.merge(
            domain,
            family,
            ips,
            ttl,
            source,
            now,
        ),
        CacheCall::Restore { rows, now } => m.restore(rows, now),
    }
}

/// The cache after some calls.
pub open spec fn after_calls(m: CacheModel, calls: Seq<CacheCall>) -> CacheModel
    decreases calls.len(),
{
    if calls.len() == 0 {
        m
    } else {
        after_call(after_calls(m, calls.drop_last()), calls.last())
    }
}

proof fn lemma_restore_valid(m: CacheModel, rows: Seq<NameRow>, now: Instant)
    requires
        m.valid(),
    ensures
        m.restore(rows, now).valid(),
        m.restore(rows, now).fwd_cap == m.fwd_cap,
        m.restore(rows, now).rev_cap == m.rev_cap,
    decreases rows.len(),
{
    if rows.len() > 0 {
        let before = m.restore(rows.drop_last(), now);
        let row = rows.last();
        lemma_restore_valid(m, rows.drop_last(), now);
        let holder = NameHolder {
            domain: row.domain,
            expire_at: Instant { nanos: (now.nanos + row.remaining.nanos) as u128 },
        };
        before.law_keep_valid(Seq::empty(), arbitrary(), seq![row.ip], holder);
        assert(seq![row.ip].drop_last() =~= Seq::<IpAddr>::empty());
        assert(before.keep_names(Seq::empty(), holder) == before);
        assert(before.keep_names(seq![row.ip], holder) == before.keep_name(row.ip, holder));
    }
}

proof fn lemma_call_valid(m: CacheModel, call: CacheCall)
    requires
        m.valid(),
    ensures
        after_call(m, call).valid(),
        after_call(m, call).fwd_cap == m.fwd_cap,
        after_call(m, call).rev_cap == m.rev_cap,
{
    match call {
        CacheCall::Put { domain, ips, ttl, source, now } => {
            let holder = cache::holder_of(domain, ttl, now);
            let key = text::ascii_lower(domain);
            let expire = Instant { nanos: (now.nanos + ttl.nanos) as u128 };
            text::lemma_lower_idempotent(domain);
            m.law_keep_valid(key, arbitrary(), ips, holder);
            m.keep_names(ips, holder).law_keep_valid(
                key,
                crate::dns::lru_store::Answer {
                    ips,
                    expire_v4: expire,
                    expire_v6: expire,
                    source,
                    queried: cache::families_of(ips),
                },
                Seq::empty(),
                holder,
            );
        },
        CacheCall::Merge { domain, family, ips, ttl, source, now } => {
            let holder = cache::holder_of(domain, ttl, now);
            let key = text::ascii_lower(domain);
            let expire = Instant { nanos: (now.nanos + ttl.nanos) as u128 };
            text::lemma_lower_idempotent(domain);
            m.law_keep_valid(key, arbitrary(), ips, holder);
            m.keep_names(ips, holder).law_keep_valid(
                key,
                cache::merged_answer(m.answer(key), family, ips, expire, source, now),
                Seq::empty(),
                holder,
            );
        },
        CacheCall::Restore { rows, now } => {
            lemma_restore_valid(m, rows, now);
        },
    }
}

/// Every history of calls keeps a valid cache valid, and its limits as they
/// were.
pub proof fn law_calls_keep_valid(m: CacheModel, calls: Seq<CacheCall>)
    requires
        m.valid(),
    ensures
        after_calls(m, calls).valid(),
        after_calls(m, calls).fwd_cap == m.fwd_cap,
        after_calls(m, calls).rev_cap == m.rev_cap,
    decreases calls.len(),
{
    if calls.len() > 0 {
        law_calls_keep_valid(m, calls.drop_last());
        lemma_call_valid(after_calls(m, calls.drop_last()), calls.last());
    }
}

/// A cache made for about `capacity` answers never holds more answers or
/// mappings than its shards may hold together, whatever was called.
pub proof fn law_bounded_over_calls(capacity: usize, made: CacheModel, calls: Seq<CacheCall>)
    requires
        made.valid(),
        made.fwd_cap == cache::forward_share(capacity as int),
        made.rev_cap == cache::reverse_share(capacity as int),
    ensures
        cache::total_len(after_calls(made, calls).forward) <= SHARDS * cache::forward_share(
            capacity as int,
        ),
        cache::total_len(after_calls(made, calls).reverse) <= SHARDS * cache::reverse_share(
            capacity as int,
        ),
{
    law_calls_keep_valid(made, calls);
    cache_laws::law_bounded(after_calls(made, calls));
}

/// The answer that was put last is never the one that is evicted: it is found
/// right after, whatever was called before and however small the cache.
pub proof fn law_last_put_is_found(
    made: CacheModel,
    calls: Seq<CacheCall>,
    domain: Seq<char>,
    ips: Seq<IpAddr>,
    ttl: Duration,
    source: Option<Seq<char>>,
    now: Instant,
)
    requires
        made.valid(),
        ttl.nanos > 0,
        now.nanos + ttl.nanos <= u128::MAX,
        now.nanos + REVERSE_TTL_FLOOR <= u128::MAX,
    ensures
        after_calls(
            made,
            calls.push(CacheCall::Put { domain, ips, ttl, source, now }),
        ).live_answer(text::ascii_lower(domain), now) is Some,
{
    let all = calls.push(CacheCall::Put { domain, ips, ttl, source, now });
    assert(all.drop_last() =~= calls);
    law_calls_keep_valid(made, calls);
    cache_laws::law_put_then_get(
        after_calls(made, calls),
        domain,
        domain,
        ips,
        ttl,
        source,
        now,
        now,
    );
}

} // verus!
