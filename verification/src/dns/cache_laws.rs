//! What holds of the answer cache over several calls.
use crate::clock::{Duration, Instant};
use crate::dns::cache::{
    CacheModel, NameRow, ReverseSnapshotEntry, REVERSE_TTL_FLOOR, SHARDS,
};
use crate::dns::cache;
use crate::dns::families::QueryFamilies;
use crate::dns::lru_store::{Answer, IpKey, NameHolder};
use crate::dns::lru_store;
use crate::net;
use crate::net::IpAddr;
use crate::text;
use vstd::prelude::*;

verus! {

/// A put answer is read back, under any spelling of the domain in upper and
/// lower case: until its life is over the lookup gives its addresses, IPv4
/// first, and from then on nothing.
pub proof fn law_put_then_get(
    m: CacheModel,
    domain: Seq<char>,
    spelling: Seq<char>,
    ips: Seq<IpAddr>,
    ttl: Duration,
    source: Option<Seq<char>>,
    now: Instant,
    at: Instant,
)
    requires
        m.valid(),
        text::ascii_lower(spelling) == text::ascii_lower(domain),
        now.nanos + ttl.nanos <= u128::MAX,
        now.nanos + REVERSE_TTL_FLOOR <= u128::MAX,
    ensures
        ({
            let found = m.put(domain, ips, ttl, source, now).live_answer(
                text::ascii_lower(spelling),
                at,
            );
            if at.nanos < now.nanos + ttl.nanos {
                &&& found is Some
                &&& cache::answer_ips(found->0, at) == cache::of_family(ips, QueryFamilies::IPV4)
                    + cache::of_family(ips, QueryFamilies::IPV6)
                &&& ips.len() > 0 ==> cache::answer_ttl(found->0, at) == now.nanos + ttl.nanos
                    - at.nanos
                &&& found->0.source == source
            } else {
                found is None
            }
        }),
{
    let key = text::ascii_lower(domain);
    let holder = cache::holder_of(domain, ttl, now);
    text::lemma_lower_idempotent(domain);
    m.law_keep_valid(key, arbitrary(), ips, holder);
    let named = m.keep_names(ips, holder);
    let i = cache::shard_of(key);
    let put = m.put(domain, ips, ttl, source, now);
    let expire = Instant { nanos: (now.nanos + ttl.nanos) as u128 };
    let a = Answer {
        ips,
        expire_v4: expire,
        expire_v6: expire,
        source,
        queried: cache::families_of(ips),
    };
    assert(cache::forward_shard_valid(named.forward[i], i, named.fwd_cap));
    cache::lemma_keep(named.forward[i], named.fwd_cap, key, a);
    assert(put.answer(key) == Some(a));
    lemma_family_split(ips);
    if ips.len() > 0 {
        assert(ips[0] is V4 || ips[0] is V6);
    }
}

/// A list without an address of one family gives nothing for it.
proof fn lemma_family_split(ips: Seq<IpAddr>)
    ensures
        (exists|i: int| 0 <= i < ips.len() && ips[i] is V4) <==> cache::of_family(
            ips,
            QueryFamilies::IPV4,
        ).len() > 0,
        (exists|i: int| 0 <= i < ips.len() && ips[i] is V6) <==> cache::of_family(
            ips,
            QueryFamilies::IPV6,
        ).len() > 0,
        cache::of_family(ips, QueryFamilies::IPV4).len() == 0 ==> cache::of_family(
            ips,
            QueryFamilies::IPV4,
        ) == Seq::<IpAddr>::empty(),
        cache::of_family(ips, QueryFamilies::IPV6).len() == 0 ==> cache::of_family(
            ips,
            QueryFamilies::IPV6,
        ) == Seq::<IpAddr>::empty(),
{
    let p4 = |ip: IpAddr| QueryFamilies::IPV4.includes(crate::dns::families::family_of(ip));
    let p6 = |ip: IpAddr| QueryFamilies::IPV6.includes(crate::dns::families::family_of(ip));
    broadcast use vstd::seq_lib::group_filter_ensures;

    if exists|i: int| 0 <= i < ips.len() && ips[i] is V4 {
        let i = choose|i: int| 0 <= i < ips.len() && ips[i] is V4;
        assert(p4(ips[i]));
        assert(ips.filter(p4).contains(ips[i]));
    }
    if exists|i: int| 0 <= i < ips.len() && ips[i] is V6 {
        let i = choose|i: int| 0 <= i < ips.len() && ips[i] is V6;
        assert(p6(ips[i]));
        assert(ips.filter(p6).contains(ips[i]));
    }
    if ips.filter(p4).len() > 0 {
        let x = ips.filter(p4)[0];
        assert(p4(x));
        assert(ips.filter(p4).contains(x));
        ips.lemma_filter_contains_rev(p4, x);
        let i = choose|i: int| 0 <= i < ips.len() && ips[i] == x;
        assert(ips[i] is V4);
    }
    if ips.filter(p6).len() > 0 {
        let x = ips.filter(p6)[0];
        assert(p6(x));
        assert(ips.filter(p6).contains(x));
        ips.lemma_filter_contains_rev(p6, x);
        let i = choose|i: int| 0 <= i < ips.len() && ips[i] == x;
        assert(ips[i] is V6);
    }
    assert(ips.filter(p4).len() == 0 ==> ips.filter(p4) =~= Seq::<IpAddr>::empty());
    assert(ips.filter(p6).len() == 0 ==> ips.filter(p6) =~= Seq::<IpAddr>::empty());
}

/// Keeping an answer leaves every other domain's answer as it was, except for
/// the least recently used one of a full shard, which may be evicted.
pub proof fn law_keep_other_answers(m: CacheModel, domain: Seq<char>, a: Answer, other: Seq<char>)
    requires
        m.valid(),
        other != domain,
    ensures
        ({
            let after = m.keep_answer(domain, a);
            let shard = m.forward[cache::shard_of(domain)];
            ||| after.answer(other) == m.answer(other)
            ||| {
                &&& after.answer(other) is None
                &&& cache::shard_of(other) == cache::shard_of(domain)
                &&& shard.len() == m.fwd_cap
                &&& shard.last().0 == other
            }
        }),
{
    let i = cache::shard_of(domain);
    assert(cache::forward_shard_valid(m.forward[i], i, m.fwd_cap));
    cache::lemma_keep(m.forward[i], m.fwd_cap, domain, a);
    if cache::shard_of(other) == i {
        assert(lru_store::lru_lookup(cache::keep(m.forward[i], m.fwd_cap, domain, a), other)
            == m.keep_answer(domain, a).answer(other));
    }
}

/// Merging one family's answer leaves the other family alone: while it was
/// fresh at the merge it keeps its expiry and exactly its addresses, however
/// short the merged answer lives.
pub proof fn law_merge_keeps_other_family(
    existing: Answer,
    family: QueryFamilies,
    ips: Seq<IpAddr>,
    expire: Instant,
    source: Option<Seq<char>>,
    now: Instant,
)
    requires
        family is IPV4 || family is IPV6,
        forall|i: int|
            0 <= i < ips.len() ==> crate::dns::families::family_of(#[trigger] ips[i]) == family,
        cache::fresh(existing, cache::other_family(family), now),
    ensures
        ({
            let other = cache::other_family(family);
            let merged = cache::merged_answer(Some(existing), family, ips, expire, source, now);
            &&& cache::expiry(merged, other) == cache::expiry(existing, other)
            &&& forall|at: Instant|
                #[trigger] cache::fresh(merged, other, at) == cache::fresh(existing, other, at)
            &&& forall|ip: IpAddr|
                #[trigger] cache::of_family(merged.ips, other).contains(ip) <==> cache::of_family(
                    existing.ips,
                    other,
                ).contains(ip)
        }),
{
    let other = cache::other_family(family);
    let merged = cache::merged_answer(Some(existing), family, ips, expire, source, now);
    let kept = cache::of_family(existing.ips, other);
    cache::law_sorted_ips(kept + ips);
    assert forall|ip: IpAddr| #[trigger]
        cache::of_family(merged.ips, other).contains(ip) <==> kept.contains(ip) by {
        lemma_of_family_contains(merged.ips, other, ip);
        lemma_of_family_contains(existing.ips, other, ip);
        assert(merged.ips.contains(ip) <==> (kept + ips).contains(ip));
        if (kept + ips).contains(ip) {
            let j = choose|j: int| 0 <= j < (kept + ips).len() && (kept + ips)[j] == ip;
            if j < kept.len() {
                assert(kept[j] == ip);
            } else {
                assert(ips[j - kept.len()] == ip);
            }
        }
        if kept.contains(ip) {
            let j = choose|j: int| 0 <= j < kept.len() && kept[j] == ip;
            assert((kept + ips)[j] == ip);
        }
    }
}

proof fn lemma_of_family_contains(ips: Seq<IpAddr>, family: QueryFamilies, ip: IpAddr)
    ensures
        cache::of_family(ips, family).contains(ip) <==> ips.contains(ip) && family.includes(
            crate::dns::families::family_of(ip),
        ),
{
    let p = |q: IpAddr| family.includes(crate::dns::families::family_of(q));
    broadcast use vstd::seq_lib::group_filter_ensures;

    if ips.contains(ip) && p(ip) {
        let i = choose|i: int| 0 <= i < ips.len() && ips[i] == ip;
        assert(p(ips[i]));
        assert(ips.filter(p).contains(ips[i]));
    }
    if ips.filter(p).contains(ip) {
        ips.lemma_filter_contains_rev(p, ip);
        let i = choose|i: int| 0 <= i < ips.filter(p).len() && ips.filter(p)[i] == ip;
        assert(p(ips.filter(p)[i]));
    }
}

/// A merged family is read back: until its own life is over it has exactly the
/// addresses that were merged, whatever it had before, in order and each once.
/// No address at all is an answer too. What the other family had stays while it
/// was fresh, and without a source the entry keeps the one it had.
pub proof fn law_merge_then_get(
    m: CacheModel,
    domain: Seq<char>,
    family: QueryFamilies,
    ips: Seq<IpAddr>,
    ttl: Duration,
    source: Option<Seq<char>>,
    now: Instant,
    at: Instant,
)
    requires
        m.valid(),
        family is IPV4 || family is IPV6,
        forall|i: int|
            0 <= i < ips.len() ==> crate::dns::families::family_of(#[trigger] ips[i]) == family,
        now.nanos + ttl.nanos <= u128::MAX,
        now.nanos + REVERSE_TTL_FLOOR <= u128::MAX,
    ensures
        ({
            let key = text::ascii_lower(domain);
            let other = cache::other_family(family);
            let existing = m.answer(key);
            let found = m.merge(domain, family, ips, ttl, source, now).answer(key);
            let a = found->0;
            &&& found is Some
            &&& cache::expiry(a, family).nanos == now.nanos + ttl.nanos
            &&& cache::fresh(a, family, at) == (at.nanos < now.nanos + ttl.nanos)
            &&& cache::ips_ordered(a.ips)
            &&& forall|ip: IpAddr|
                #[trigger] cache::of_family(a.ips, family).contains(ip) <==> ips.contains(ip)
            &&& ips.len() == 0 && at.nanos < now.nanos + ttl.nanos ==> cache::family_hit_of(
                a,
                family,
                cache::fresh(a, family, at),
                at,
            ) is NoData
            &&& cache::keeps_other(existing, family, now) ==> {
                &&& cache::expiry(a, other) == cache::expiry(existing->0, other)
                &&& cache::fresh(a, other, at) == cache::fresh(existing->0, other, at)
                &&& forall|ip: IpAddr|
                    #[trigger] cache::of_family(a.ips, other).contains(ip) <==> cache::of_family(
                        existing->0.ips,
                        other,
                    ).contains(ip)
            }
            &&& a.source == (if source is None && existing is Some {
                existing->0.source
            } else {
                source
            })
        }),
{
    let key = text::ascii_lower(domain);
    let holder = cache::holder_of(domain, ttl, now);
    let other = cache::other_family(family);
    text::lemma_lower_idempotent(domain);
    m.law_keep_valid(key, arbitrary(), ips, holder);
    let named = m.keep_names(ips, holder);
    let i = cache::shard_of(key);
    let expire = Instant { nanos: (now.nanos + ttl.nanos) as u128 };
    let a = cache::merged_answer(m.answer(key), family, ips, expire, source, now);
    assert(cache::forward_shard_valid(named.forward[i], i, named.fwd_cap));
    cache::lemma_keep(named.forward[i], named.fwd_cap, key, a);
    assert(m.merge(domain, family, ips, ttl, source, now).answer(key) == Some(a));
    let kept = if cache::keeps_other(m.answer(key), family, now) {
        cache::of_family(m.answer(key)->0.ips, other)
    } else {
        Seq::empty()
    };
    let joined = kept + ips;
    assert(cache::keeps_other(m.answer(key), family, now) || joined =~= ips);
    cache::law_sorted_ips(joined);
    assert forall|ip: IpAddr| #[trigger]
        cache::of_family(a.ips, family).contains(ip) <==> ips.contains(ip) by {
        lemma_of_family_contains(a.ips, family, ip);
        assert(a.ips.contains(ip) <==> joined.contains(ip));
        if joined.contains(ip) {
            let j = choose|j: int| 0 <= j < joined.len() && joined[j] == ip;
            if j < kept.len() {
                assert(kept[j] == ip);
                assert(kept.contains(ip));
                lemma_of_family_contains(m.answer(key)->0.ips, other, ip);
            } else {
                assert(ips[j - kept.len()] == ip);
            }
        }
        if ips.contains(ip) {
            let j = choose|j: int| 0 <= j < ips.len() && ips[j] == ip;
            assert(joined[j + kept.len()] == ip);
            assert(crate::dns::families::family_of(ips[j]) == family);
        }
    }
    if ips.len() == 0 {
        let own = cache::of_family(a.ips, family);
        if own.len() > 0 {
            assert(own.contains(own[0]));
        }
    }
    if cache::keeps_other(m.answer(key), family, now) {
        law_merge_keeps_other_family(m.answer(key)->0, family, ips, expire, source, now);
    }
}

/// The number of entries never exceeds what the shards may hold together.
pub proof fn law_bounded(m: CacheModel)
    requires
        m.valid(),
    ensures
        cache::total_len(m.forward) <= SHARDS * m.fwd_cap,
        cache::total_len(m.reverse) <= SHARDS * m.rev_cap,
{
    assert forall|i: int| 0 <= i < m.forward.len() implies #[trigger] m.forward[i].len()
        <= m.fwd_cap by {
        assert(cache::forward_shard_valid(m.forward[i], i, m.fwd_cap));
    }
    assert forall|i: int| 0 <= i < m.reverse.len() implies #[trigger] m.reverse[i].len()
        <= m.rev_cap by {
        assert(cache::reverse_shard_valid(m.reverse[i], i, m.rev_cap));
    }
    lemma_total(m.forward, m.fwd_cap);
    lemma_total(m.reverse, m.rev_cap);
}

proof fn lemma_total<A>(shards: Seq<Seq<A>>, cap: nat)
    requires
        forall|i: int| 0 <= i < shards.len() ==> #[trigger] shards[i].len() <= cap,
    ensures
        cache::total_len(shards) <= shards.len() * cap,
    decreases shards.len(),
{
    if shards.len() > 0 {
        let head = shards.drop_last();
        assert forall|i: int| 0 <= i < head.len() implies #[trigger] head[i].len() <= cap by {
            assert(head[i] == shards[i]);
        }
        lemma_total(head, cap);
        assert(shards[shards.len() - 1].len() <= cap);
        assert(shards.len() * cap == head.len() * cap + cap) by (nonlinear_arith)
            requires
                shards.len() == head.len() + 1,
        ;
    }
}

/// Where an address sits in its shard: under `holder`, among the `n` most
/// recently used mappings.
spec fn named_within(m: CacheModel, ip: IpAddr, holder: NameHolder, n: int) -> bool {
    exists|p: int|
        0 <= p < n && p < m.reverse[cache::shard_of_ip(ip)].len()
            && #[trigger] m.reverse[cache::shard_of_ip(ip)][p] == (cache::key_of_ip(ip), holder)
}

/// Whether `k` stands in front of a place.
spec fn key_before<K, V>(s: Seq<(K, V)>, k: K, p: int) -> bool {
    exists|r: int| 0 <= r < p && #[trigger] s[r].0 == k
}

/// A pair under another key moves back by at most one place, and by none where
/// the kept key stood in front of it; a shard that is not longer than its limit
/// does not lose it before that place.
proof fn lemma_keep_place<K, V>(s: Seq<(K, V)>, cap: nat, k: K, v: V, p: int)
    requires
        lru_store::lru_distinct(s),
        s.len() <= cap,
        0 <= p < s.len(),
        key_before(s, k, p) || p + 1 < cap,
        s[p].0 != k,
    ensures
        exists|q: int|
            0 <= q <= p + 1 && (key_before(s, k, p) ==> q <= p) && q < cache::keep(
                s,
                cap,
                k,
                v,
            ).len() && #[trigger] cache::keep(s, cap, k, v)[q] == s[p],
{
    let w = lru_store::lru_without(s, k);
    lemma_without_place(s, k, p);
    let r = choose|r: int|
        0 <= r <= p && (key_before(s, k, p) ==> r < p) && r < w.len() && #[trigger] w[r] == s[p];
    let t = seq![(k, v)] + w;
    lru_store::lemma_without(s, k);
    assert(t[r + 1] == s[p]);
    assert(cache::keep(s, cap, k, v)[r + 1] == s[p]);
}

proof fn lemma_without_place<K, V>(s: Seq<(K, V)>, k: K, p: int)
    requires
        0 <= p < s.len(),
        s[p].0 != k,
    ensures
        exists|r: int|
            0 <= r <= p && (key_before(s, k, p) ==> r < p) && r < lru_store::lru_without(s, k).len()
                && #[trigger] lru_store::lru_without(s, k)[r] == s[p],
    decreases s.len(),
{
    let rest = s.drop_first();
    let w = lru_store::lru_without(s, k);
    if p == 0 {
        assert(w[0] == s[0]);
    } else {
        lemma_without_place(rest, k, p - 1);
        let wr = lru_store::lru_without(rest, k);
        let r = choose|r: int|
            0 <= r <= p - 1 && (key_before(rest, k, p - 1) ==> r < p - 1) && r < wr.len()
                && #[trigger] wr[r] == rest[p - 1];
        if s[0].0 == k {
            assert(w[r] == s[p]);
        } else {
            if key_before(s, k, p) {
                let at = choose|at: int| 0 <= at < p && #[trigger] s[at].0 == k;
                assert(rest[at - 1].0 == k);
            }
            assert(w[r + 1] == s[p]);
        }
    }
}

/// The different addresses among some that share a shard.
pub open spec fn sharing(ips: Seq<IpAddr>, shard: int) -> Set<IpAddr> {
    ips.to_set().filter(|ip: IpAddr| cache::shard_of_ip(ip) == shard)
}

/// How many addresses share a shard once another one is added.
proof fn lemma_sharing(ips: Seq<IpAddr>, shard: int)
    requires
        ips.len() > 0,
    ensures
        sharing(ips, shard).finite(),
        sharing(ips.drop_last(), shard).finite(),
        sharing(ips, shard).len() == sharing(ips.drop_last(), shard).len() + if cache::shard_of_ip(
            ips.last(),
        ) == shard && !ips.drop_last().contains(ips.last()) {
            1int
        } else {
            0int
        },
{
    let head = ips.drop_last();
    let last = ips.last();
    vstd::seq_lib::seq_to_set_is_finite(ips);
    vstd::seq_lib::seq_to_set_is_finite(head);
    assert(ips =~= head.push(last));
    assert forall|ip: IpAddr| ips.contains(ip) <==> head.contains(ip) || ip == last by {
        if ips.contains(ip) {
            let n = choose|n: int| 0 <= n < ips.len() && ips[n] == ip;
            if n < head.len() {
                assert(head[n] == ip);
            }
        }
        if head.contains(ip) {
            let n = choose|n: int| 0 <= n < head.len() && head[n] == ip;
            assert(ips[n] == ip);
        }
        assert(ips[ips.len() - 1] == last);
    }
    if cache::shard_of_ip(last) == shard {
        assert(sharing(ips, shard) =~= sharing(head, shard).insert(last));
    } else {
        assert(sharing(ips, shard) =~= sharing(head, shard));
    }
}

proof fn lemma_names_within(m: CacheModel, ips: Seq<IpAddr>, holder: NameHolder, i: int)
    requires
        m.valid(),
        0 <= i < ips.len(),
        sharing(ips, cache::shard_of_ip(ips[i])).len() <= m.rev_cap,
    ensures
        named_within(
            m.keep_names(ips, holder),
            ips[i],
            holder,
            sharing(ips, cache::shard_of_ip(ips[i])).len() as int,
        ),
    decreases ips.len(),
{
    let head = ips.drop_last();
    let before = m.keep_names(head, holder);
    m.law_keep_valid(Seq::empty(), arbitrary(), head, holder);
    let last = ips.last();
    let j = cache::shard_of_ip(last);
    let shard = before.reverse[j];
    let key = cache::key_of_ip(last);
    let after = m.keep_names(ips, holder);
    assert(cache::reverse_shard_valid(shard, j, before.rev_cap));
    let kept = cache::keep(shard, before.rev_cap, key, holder);
    assert(kept[0] == (key, holder));
    assert(kept.len() > 0);
    let ip = ips[i];
    let here = cache::shard_of_ip(ip);
    lemma_sharing(ips, here);
    if ip == last {
        assert(sharing(ips, here).len() > 0) by {
            assert(ips.contains(ip));
            assert(sharing(ips, here).contains(ip));
            if sharing(ips, here).len() == 0 {
                assert(sharing(ips, here) =~= Set::empty());
            }
        }
        assert(after.reverse[here][0] == (cache::key_of_ip(ip), holder));
    } else {
        assert(head[i] == ip);
        lemma_names_within(m, head, holder, i);
        let sh = before.reverse[here];
        let n = sharing(head, here).len();
        let p = choose|p: int|
            0 <= p < n && p < sh.len() && #[trigger] sh[p] == (cache::key_of_ip(ip), holder);
        if here == j {
            assert(cache::key_of_ip(ip) != key);
            if head.contains(last) {
                let i2 = choose|i2: int| 0 <= i2 < head.len() && head[i2] == last;
                lemma_names_within(m, head, holder, i2);
                let r = choose|r: int| 0 <= r < n && r < sh.len() && #[trigger] sh[r] == (key, holder);
                assert(sh[r].0 == key);
                if r < p {
                    assert(key_before(sh, key, p));
                }
            }
            lemma_keep_place(shard, before.rev_cap, key, holder, p);
            let q = choose|q: int|
                0 <= q <= p + 1 && (key_before(shard, key, p) ==> q <= p) && q < kept.len()
                    && #[trigger] kept[q] == shard[p];
            assert(after.reverse[here][q] == (cache::key_of_ip(ip), holder));
        } else {
            assert(after.reverse[here][p] == (cache::key_of_ip(ip), holder));
        }
    }
}

/// Names are kept one after the other.
proof fn lemma_keep_names_split(m: CacheModel, ips: Seq<IpAddr>, holder: NameHolder, n: int)
    requires
        0 <= n <= ips.len(),
    ensures
        m.keep_names(ips, holder) == m.keep_names(ips.take(n), holder).keep_names(
            ips.skip(n),
            holder,
        ),
    decreases ips.len() - n,
{
    if n < ips.len() {
        lemma_keep_names_split(m, ips.drop_last(), holder, n);
        assert(ips.drop_last().take(n) =~= ips.take(n));
        assert(ips.drop_last().skip(n) =~= ips.skip(n).drop_last());
    } else {
        assert(ips.take(n) =~= ips);
    }
}

/// Where no more different addresses follow in the shard of an address than it
/// may hold, the address itself counted, the address has the name.
proof fn lemma_named(m: CacheModel, ips: Seq<IpAddr>, holder: NameHolder, i: int)
    requires
        m.valid(),
        0 <= i < ips.len(),
        sharing(ips.skip(i), cache::shard_of_ip(ips[i])).len() <= m.rev_cap,
    ensures
        m.keep_names(ips, holder).name(ips[i]) == Some(holder),
{
    let from = m.keep_names(ips.take(i), holder);
    m.law_keep_valid(Seq::empty(), arbitrary(), ips.take(i), holder);
    m.law_keep_valid(Seq::empty(), arbitrary(), ips, holder);
    lemma_keep_names_split(m, ips, holder, i);
    assert(ips.skip(i)[0] == ips[i]);
    lemma_names_within(from, ips.skip(i), holder, 0);
    let named = m.keep_names(ips, holder);
    let j = cache::shard_of_ip(ips[i]);
    let shard = named.reverse[j];
    let n = sharing(ips.skip(i), j).len();
    let p = choose|p: int|
        0 <= p < n && p < shard.len() && #[trigger] shard[p] == (
            cache::key_of_ip(ips[i]),
            holder,
        );
    assert(cache::reverse_shard_valid(shard, j, named.rev_cap));
    lru_store::lemma_lookup(shard, cache::key_of_ip(ips[i]));
    assert(shard[p].0 == cache::key_of_ip(ips[i]));
}

/// Until when the name of an address of an answer is good: for the answer's
/// life, but at least for [`REVERSE_TTL_FLOOR`].
pub open spec fn name_end(ttl: Duration, now: Instant) -> int {
    now.nanos + if ttl.nanos >= REVERSE_TTL_FLOOR {
        ttl.nanos
    } else {
        REVERSE_TTL_FLOOR
    }
}

/// Every address of a put or a merged answer gets the domain as its name, and
/// the name stays good for at least [`REVERSE_TTL_FLOOR`], however short the
/// answer lives. (An answer pushes one of its own addresses out again where more
/// different ones than its shard may hold follow in that shard, it counted.)
pub proof fn law_put_names_addresses(
    m: CacheModel,
    domain: Seq<char>,
    family: QueryFamilies,
    ips: Seq<IpAddr>,
    ttl: Duration,
    source: Option<Seq<char>>,
    now: Instant,
    i: int,
)
    requires
        m.valid(),
        now.nanos + ttl.nanos <= u128::MAX,
        now.nanos + REVERSE_TTL_FLOOR <= u128::MAX,
        0 <= i < ips.len(),
        sharing(ips.skip(i), cache::shard_of_ip(ips[i])).len() <= m.rev_cap,
    ensures
        ({
            let put = m.put(domain, ips, ttl, source, now).name(ips[i]);
            let merged = m.merge(domain, family, ips, ttl, source, now).name(ips[i]);
            &&& put is Some
            &&& put->0.domain == text::ascii_lower(domain)
            &&& put->0.expire_at.nanos == name_end(ttl, now)
            &&& merged == put
        }),
{
    lemma_named(m, ips, cache::holder_of(domain, ttl, now), i);
}

/// Every address of a put or a merged answer maps back to the domain where no
/// shard gets more different addresses of the answer than it may hold.
pub proof fn law_all_addresses_named(
    m: CacheModel,
    domain: Seq<char>,
    family: QueryFamilies,
    ips: Seq<IpAddr>,
    ttl: Duration,
    source: Option<Seq<char>>,
    now: Instant,
)
    requires
        m.valid(),
        now.nanos + ttl.nanos <= u128::MAX,
        now.nanos + REVERSE_TTL_FLOOR <= u128::MAX,
        forall|shard: int| 0 <= shard < SHARDS ==> (#[trigger] sharing(ips, shard)).len()
            <= m.rev_cap,
    ensures
        forall|i: int|
            0 <= i < ips.len() ==> m.put(domain, ips, ttl, source, now).live_name(
                #[trigger] ips[i],
                now,
            ) == Some(text::ascii_lower(domain)) && m.merge(
                domain,
                family,
                ips,
                ttl,
                source,
                now,
            ).live_name(ips[i], now) == Some(text::ascii_lower(domain)),
{
    assert forall|i: int| 0 <= i < ips.len() implies m.put(domain, ips, ttl, source, now).live_name(
        #[trigger] ips[i],
        now,
    ) == Some(text::ascii_lower(domain)) && m.merge(
        domain,
        family,
        ips,
        ttl,
        source,
        now,
    ).live_name(ips[i], now) == Some(text::ascii_lower(domain)) by {
        let shard = cache::shard_of_ip(ips[i]);
        let rest = sharing(ips.skip(i), shard);
        vstd::seq_lib::seq_to_set_is_finite(ips);
        assert forall|ip: IpAddr| rest.contains(ip) implies sharing(ips, shard).contains(ip) by {
            let n = choose|n: int| 0 <= n < ips.skip(i).len() && ips.skip(i)[n] == ip;
            assert(ips[i + n] == ip);
        }
        vstd::set_lib::lemma_len_subset(rest, sharing(ips, shard));
        law_put_names_addresses(m, domain, family, ips, ttl, source, now, i);
    }
}

/// How many pairs are left when one shard is replaced.
proof fn lemma_total_update<A>(shards: Seq<Seq<A>>, i: int, t: Seq<A>)
    requires
        0 <= i < shards.len(),
    ensures
        cache::total_len(shards.update(i, t)) == cache::total_len(shards) - shards[i].len()
            + t.len(),
    decreases shards.len(),
{
    let new = shards.update(i, t);
    if i == shards.len() - 1 {
        assert(new.drop_last() =~= shards.drop_last());
    } else {
        lemma_total_update(shards.drop_last(), i, t);
        assert(new.drop_last() =~= shards.drop_last().update(i, t));
        assert(new.last() == shards.last());
    }
}

/// Taking out a key that is there leaves one pair less.
proof fn lemma_without_len<K, V>(s: Seq<(K, V)>, k: K)
    requires
        lru_store::lru_distinct(s),
        lru_store::lru_lookup(s, k) is Some,
    ensures
        lru_store::lru_without(s, k).len() == s.len() - 1,
    decreases s.len(),
{
    let rest = s.drop_first();
    assert(lru_store::lru_distinct(rest)) by {
        assert forall|i: int, j: int| 0 <= i < j < rest.len() implies rest[i].0 != rest[j].0 by {
            assert(s[i + 1].0 != s[j + 1].0);
        }
    }
    if s[0].0 == k {
        lru_store::lemma_lookup(rest, k);
        if lru_store::lru_lookup(rest, k) is Some {
            let v = lru_store::lru_lookup(rest, k)->0;
            let i = choose|i: int| 0 <= i < rest.len() && rest[i] == (k, v);
            assert(s[0].0 != s[i + 1].0);
        }
        lru_store::lemma_without(rest, k);
    } else {
        lemma_without_len(rest, k);
    }
}

/// As long as nothing else touches it, the name of a put address is found until
/// its end, even when the answer expired long before. From then on it is not,
/// and the first lookup takes it out.
pub proof fn law_name_outlives_answer(
    m: CacheModel,
    domain: Seq<char>,
    ips: Seq<IpAddr>,
    ttl: Duration,
    source: Option<Seq<char>>,
    now: Instant,
    i: int,
    later: CacheModel,
    at: Instant,
)
    requires
        m.valid(),
        now.nanos + ttl.nanos <= u128::MAX,
        now.nanos + REVERSE_TTL_FLOOR <= u128::MAX,
        0 <= i < ips.len(),
        sharing(ips.skip(i), cache::shard_of_ip(ips[i])).len() <= m.rev_cap,
        later.valid(),
        later.name(ips[i]) == m.put(domain, ips, ttl, source, now).name(ips[i]),
    ensures
        at.nanos < name_end(ttl, now) ==> later.live_name(ips[i], at) == Some(
            text::ascii_lower(domain),
        ) && cache::total_len(later.after_name_read(ips[i], at).reverse) == cache::total_len(
            later.reverse,
        ),
        at.nanos >= name_end(ttl, now) ==> later.live_name(ips[i], at) is None
            && later.after_name_read(ips[i], at).name(ips[i]) is None && cache::total_len(
            later.after_name_read(ips[i], at).reverse,
        ) == cache::total_len(later.reverse) - 1,
{
    let ip = ips[i];
    law_put_names_addresses(m, domain, QueryFamilies::IPV4, ips, ttl, source, now, i);
    let j = cache::shard_of_ip(ip);
    let key = cache::key_of_ip(ip);
    let shard = later.reverse[j];
    assert(cache::reverse_shard_valid(shard, j, later.rev_cap));
    lemma_without_len(shard, key);
    lru_store::lemma_without(shard, key);
    lemma_total_update(later.reverse, j, lru_store::lru_without(shard, key));
    lemma_total_update(later.reverse, j, lru_store::lru_touch(shard, key));
}

/// The name that restoring a captured mapping keeps.
pub open spec fn restored_holder(row: NameRow, later: Instant) -> NameHolder {
    NameHolder {
        domain: row.domain,
        expire_at: Instant { nanos: (later.nanos + row.remaining.nanos) as u128 },
    }
}

/// Distinct keys drawn from another shard's keys are at most as many.
proof fn lemma_subset_len<K, V, W>(s: Seq<(K, V)>, t: Seq<(K, W)>)
    requires
        lru_store::lru_distinct(s),
        forall|i: int| 0 <= i < s.len() ==> has_key(t, #[trigger] s[i].0),
    ensures
        s.len() <= t.len(),
{
    let sk = s.map_values(|p: (K, V)| p.0);
    let tk = t.map_values(|p: (K, W)| p.0);
    assert(sk.no_duplicates()) by {
        assert forall|i: int, j: int| 0 <= i < sk.len() && 0 <= j < sk.len() && i != j implies sk[i]
            != sk[j] by {
            if i < j {
                assert(s[i].0 != s[j].0);
            } else {
                assert(s[j].0 != s[i].0);
            }
        }
    }
    sk.unique_seq_to_set();
    tk.lemma_cardinality_of_set();
    assert(sk.to_set().subset_of(tk.to_set())) by {
        assert forall|k: K| sk.to_set().contains(k) implies tk.to_set().contains(k) by {
            assert(sk.contains(k));
            let i = choose|i: int| 0 <= i < sk.len() && sk[i] == k;
            assert(has_key(t, s[i].0));
            let j = choose|j: int| 0 <= j < t.len() && #[trigger] t[j].0 == s[i].0;
            assert(tk[j] == k);
            assert(tk.contains(k));
        }
    }
    vstd::seq_lib::seq_to_set_is_finite(tk);
    vstd::set_lib::lemma_len_subset(sk.to_set(), tk.to_set());
}

/// Whether a pair is kept under `k`.
spec fn has_key<K, V>(s: Seq<(K, V)>, k: K) -> bool {
    exists|j: int| 0 <= j < s.len() && #[trigger] s[j].0 == k
}

/// The rows of all shards are the rows of their mappings.
proof fn lemma_name_rows(shards: Seq<Seq<(IpKey, NameHolder)>>, now: Instant)
    ensures
        forall|i: int, j: int|
            0 <= i < shards.len() && 0 <= j < shards[i].len() ==> cache::name_rows(
                shards,
                now,
            ).contains(cache::name_row_of(#[trigger] shards[i][j], now)),
        forall|r: NameRow|
            #[trigger] cache::name_rows(shards, now).contains(r) ==> is_row(shards, r, now),
    decreases shards.len(),
{
    if shards.len() > 0 {
        let head = shards.drop_last();
        let last = shards.last();
        lemma_name_rows(head, now);
        let front = cache::name_rows(head, now);
        let back = cache::mapping_rows(last, now);
        let all = cache::name_rows(shards, now);
        assert(all == front + back);
        assert forall|i: int, j: int|
            0 <= i < shards.len() && 0 <= j < shards[i].len() implies all.contains(
            cache::name_row_of(#[trigger] shards[i][j], now),
        ) by {
            let r = cache::name_row_of(shards[i][j], now);
            if i < head.len() {
                assert(head[i][j] == shards[i][j]);
                assert(front.contains(r));
                let n = choose|n: int| 0 <= n < front.len() && front[n] == r;
                assert(all[n] == r);
            } else {
                assert(back[j] == r);
                assert(all[front.len() + j] == r);
            }
        }
        assert forall|r: NameRow| #[trigger] all.contains(r) implies is_row(shards, r, now) by {
            let n = choose|n: int| 0 <= n < all.len() && all[n] == r;
            if n < front.len() {
                assert(front[n] == r);
                assert(front.contains(r));
                assert(is_row(head, r, now));
                let (i, j) = choose|i: int, j: int|
                    0 <= i < head.len() && 0 <= j < head[i].len() && cache::name_row_of(
                        #[trigger] head[i][j],
                        now,
                    ) == r;
                assert(shards[i][j] == head[i][j]);
            } else {
                let j = n - front.len();
                assert(back[j] == r);
                assert(cache::name_row_of(shards[shards.len() - 1][j], now) == r);
            }
        }
    } else {
        assert(cache::name_rows(shards, now) =~= Seq::empty());
    }
}

/// Whether a row captures a mapping of one of the shards.
spec fn is_row(shards: Seq<Seq<(IpKey, NameHolder)>>, r: NameRow, now: Instant) -> bool {
    exists|i: int, j: int|
        0 <= i < shards.len() && 0 <= j < shards[i].len() && cache::name_row_of(
            #[trigger] shards[i][j],
            now,
        ) == r
}

/// The live mappings of a valid shard.
proof fn lemma_live_names(shard: Seq<(IpKey, NameHolder)>, index: int, cap: nat, now: Instant)
    requires
        cache::reverse_shard_valid(shard, index, cap),
    ensures
        forall|j: int|
            0 <= j < cache::live_names(shard, now).len() ==> {
                let p = #[trigger] cache::live_names(shard, now)[j];
                &&& shard.contains(p)
                &&& p.1.expire_at.nanos > now.nanos
                &&& cache::shard_of_ip(cache::ip_of_key(p.0)) == index
                &&& cache::key_of_ip(cache::ip_of_key(p.0)) == p.0
                &&& lru_store::lru_lookup(shard, p.0) == Some(p.1)
            },
        forall|j: int|
            0 <= j < shard.len() && (#[trigger] shard[j]).1.expire_at.nanos > now.nanos
                ==> cache::live_names(shard, now).contains(shard[j]),
        cache::live_names(shard, now).len() <= shard.len(),
{
    let keep = |p: (IpKey, NameHolder)| p.1.expire_at.nanos > now.nanos;
    broadcast use vstd::seq_lib::group_filter_ensures;

    let out = shard.filter(keep);
    assert forall|j: int| 0 <= j < out.len() implies {
        let p = #[trigger] out[j];
        &&& shard.contains(p)
        &&& p.1.expire_at.nanos > now.nanos
        &&& cache::shard_of_ip(cache::ip_of_key(p.0)) == index
        &&& cache::key_of_ip(cache::ip_of_key(p.0)) == p.0
        &&& lru_store::lru_lookup(shard, p.0) == Some(p.1)
    } by {
        let p = out[j];
        assert(keep(out[j]));
        assert(out.contains(p));
        shard.lemma_filter_contains_rev(keep, p);
        let n = choose|n: int| 0 <= n < shard.len() && shard[n] == p;
        assert(cache::shard_of_ip(cache::ip_of_key(shard[n].0)) == index);
        lru_store::lemma_lookup(shard, p.0);
        assert(shard[n].0 == p.0);
    }
    assert forall|j: int|
        0 <= j < shard.len() && (
        #[trigger] shard[j]).1.expire_at.nanos > now.nanos implies out.contains(shard[j]) by {
        assert(keep(shard[j]));
    }
}

/// The rows of a snapshot each capture the live mapping of their address, and
/// none twice.
proof fn lemma_rows_captured(m: CacheModel, rows: Seq<NameRow>, now: Instant)
    requires
        m.valid(),
        rows.to_multiset() == cache::name_rows(
            m.without_expired_names(now).reverse,
            now,
        ).to_multiset(),
    ensures
        forall|a: int| 0 <= a < rows.len() ==> captured(m, #[trigger] rows[a], now),
        rows.no_duplicates(),
{
    broadcast use vstd::seq_lib::group_to_multiset_ensures;

    let live = m.without_expired_names(now).reverse;
    let base = cache::name_rows(live, now);
    lemma_name_rows(live, now);
    assert forall|i: int| 0 <= i < SHARDS implies #[trigger] live[i] == cache::live_names(
        m.reverse[i],
        now,
    ) by {}
    assert forall|a: int| 0 <= a < rows.len() implies captured(m, #[trigger] rows[a], now) by {
        assert(rows.contains(rows[a]));
        assert(rows.to_multiset().count(rows[a]) == base.to_multiset().count(rows[a]));
        assert(base.contains(rows[a]));
        assert(is_row(live, rows[a], now));
        let (i, j) = choose|i: int, j: int|
            0 <= i < live.len() && 0 <= j < live[i].len() && cache::name_row_of(
                #[trigger] live[i][j],
                now,
            ) == rows[a];
        assert(cache::reverse_shard_valid(m.reverse[i], i, m.rev_cap));
        lemma_live_names(m.reverse[i], i, m.rev_cap, now);
        let p = live[i][j];
        assert(m.name(rows[a].ip) == Some(p.1));
    }
    lemma_rows_distinct(m, live, now);
    base.lemma_multiset_has_no_duplicates();
    assert forall|r: NameRow| rows.to_multiset().contains(r) implies rows.to_multiset().count(r)
        == 1 by {
        assert(base.to_multiset().count(r) > 0);
    }
    rows.lemma_multiset_has_no_duplicates_conv();
}

/// A captured reverse table is restored in full: where the restoring cache
/// starts without mappings and its shards are not smaller, every mapping that
/// was live when it was captured names its address again, for the life it had
/// left; every other address has no name, and there are as many mappings as
/// were captured.
pub proof fn law_restore_snapshot(
    m: CacheModel,
    empty: CacheModel,
    rows: Seq<NameRow>,
    now: Instant,
    later: Instant,
    ip: IpAddr,
)
    requires
        m.valid(),
        empty.valid(),
        forall|i: int| 0 <= i < SHARDS ==> #[trigger] empty.reverse[i].len() == 0,
        empty.rev_cap >= m.rev_cap,
        rows.to_multiset() == cache::name_rows(
            m.without_expired_names(now).reverse,
            now,
        ).to_multiset(),
    ensures
        cache::total_len(empty.restore(rows, later).reverse) == rows.len(),
        ({
            let restored = empty.restore(rows, later).name(ip);
            match m.name(ip) {
                Some(h) => if h.expire_at.nanos > now.nanos {
                    restored == Some(
                        NameHolder {
                            domain: h.domain,
                            expire_at: Instant {
                                nanos: (later.nanos + (h.expire_at.nanos - now.nanos)) as u128,
                            },
                        },
                    )
                } else {
                    restored is None
                },
                None => restored is None,
            }
        }),
{
    broadcast use vstd::seq_lib::group_to_multiset_ensures;

    let live = m.without_expired_names(now).reverse;
    let base = cache::name_rows(live, now);
    lemma_name_rows(live, now);
    assert forall|i: int| 0 <= i < SHARDS implies #[trigger] live[i] == cache::live_names(
        m.reverse[i],
        now,
    ) by {}
    assert forall|r: NameRow| rows.contains(r) <==> base.contains(r) by {
        assert(rows.to_multiset().count(r) == base.to_multiset().count(r));
    }
    lemma_rows_captured(m, rows, now);
    lemma_restore(m, empty, rows, now, later);
    lemma_restore_count(m, empty, rows, now, later);
    let out = empty.restore(rows, later);
    let i = cache::shard_of_ip(ip);
    let key = cache::key_of_ip(ip);
    assert(cache::reverse_shard_valid(m.reverse[i], i, m.rev_cap));
    assert(cache::reverse_shard_valid(out.reverse[i], i, out.rev_cap));
    lru_store::lemma_lookup(m.reverse[i], key);
    lemma_live_names(m.reverse[i], i, m.rev_cap, now);
    if m.name(ip) is Some && m.name(ip)->0.expire_at.nanos > now.nanos {
        let h = m.name(ip)->0;
        let n = choose|n: int| 0 <= n < m.reverse[i].len() && m.reverse[i][n] == (key, h);
        assert(cache::live_names(m.reverse[i], now).contains(m.reverse[i][n]));
        let j = choose|j: int| 0 <= j < live[i].len() && live[i][j] == (key, h);
        let row = cache::name_row_of(live[i][j], now);
        assert(base.contains(row));
        assert(rows.contains(row));
        let a = choose|a: int| 0 <= a < rows.len() && rows[a] == row;
        assert(out.name(rows[a].ip) == Some(restored_holder(rows[a], later)));
        assert(cache::ip_of_key(key) == ip);
    } else {
        if out.name(ip) is Some {
            lru_store::lemma_lookup(out.reverse[i], key);
            let n = choose|n: int|
                0 <= n < out.reverse[i].len() && out.reverse[i][n] == (key, out.name(ip)->0);
            assert(has_key(rows_keys(rows), out.reverse[i][n].0));
            let a = choose|a: int|
                0 <= a < rows_keys(rows).len() && #[trigger] rows_keys(rows)[a].0 == key;
            assert(captured(m, rows[a], now));
            assert(cache::key_of_ip(rows[a].ip) == key);
            assert(rows[a].ip == ip);
        }
    }
}

/// Rows that capture mappings of one table name each address once.
proof fn lemma_rows_ordered(c: CacheModel, snap: Seq<ReverseSnapshotEntry>, now: Instant)
    requires
        forall|a: int|
            0 <= a < snap.len() ==> captured(c, #[trigger] cache::names_of(snap)[a], now),
        cache::names_of(snap).no_duplicates(),
        cache::names_sorted(snap),
    ensures
        forall|i: int, j: int|
            0 <= i < j < snap.len() ==> net::ip_before(snap[i].ip, snap[j].ip),
{
    let rows = cache::names_of(snap);
    assert forall|i: int, j: int| 0 <= i < j < snap.len() implies net::ip_before(
        snap[i].ip,
        snap[j].ip,
    ) by {
        assert(rows[i] == snap[i]@ && rows[j] == snap[j]@);
        assert(captured(c, rows[i], now) && captured(c, rows[j], now));
        assert(!net::ip_before(snap[j].ip, snap[i].ip));
        if snap[i].ip == snap[j].ip {
            assert(rows[i].remaining == rows[j].remaining);
            assert(rows[i] == rows[j]);
        }
        assert(snap[i].ip != snap[j].ip);
    }
}

/// A table whose keys all come from some rows names no other address.
proof fn lemma_only_rows_named(m: CacheModel, rows: Seq<NameRow>, ip: IpAddr)
    requires
        m.valid(),
        forall|i: int, j: int|
            0 <= i < SHARDS && 0 <= j < m.reverse[i].len() ==> has_key(
                rows_keys(rows),
                (#[trigger] m.reverse[i][j]).0,
            ),
        m.name(ip) is Some,
    ensures
        exists|a: int| 0 <= a < rows.len() && (#[trigger] rows[a]).ip == ip,
{
    let i = cache::shard_of_ip(ip);
    let key = cache::key_of_ip(ip);
    assert(cache::reverse_shard_valid(m.reverse[i], i, m.rev_cap));
    lru_store::lemma_lookup(m.reverse[i], key);
    let n = choose|n: int|
        0 <= n < m.reverse[i].len() && m.reverse[i][n] == (key, m.name(ip)->0);
    assert(has_key(rows_keys(rows), m.reverse[i][n].0));
    let a = choose|a: int|
        0 <= a < rows_keys(rows).len() && #[trigger] rows_keys(rows)[a].0 == key;
    assert(cache::key_of_ip(rows[a].ip) == key);
    assert(rows[a].ip == ip);
}

/// What a snapshot holds is what the restoring cache says: a snapshot is sorted
/// by address, each address once. Where it is restored into a cache without
/// mappings whose shards are not smaller, each of its addresses has its domain
/// for a name until its time left has run out, every other address has none,
/// and there are as many mappings as entries.
pub proof fn law_snapshot_restores(
    c: CacheModel,
    snap: Seq<ReverseSnapshotEntry>,
    d: CacheModel,
    now: Instant,
    later: Instant,
    at: Instant,
)
    requires
        c.valid(),
        cache::names_of(snap).to_multiset() == cache::name_rows(
            c.without_expired_names(now).reverse,
            now,
        ).to_multiset(),
        cache::names_sorted(snap),
        d.valid(),
        forall|i: int| 0 <= i < SHARDS ==> #[trigger] d.reverse[i].len() == 0,
        d.rev_cap >= c.rev_cap,
        forall|i: int|
            0 <= i < snap.len() ==> later.nanos + (#[trigger] snap[i]).remaining.nanos <= u128::MAX,
    ensures
        forall|i: int, j: int|
            0 <= i < j < snap.len() ==> net::ip_before(snap[i].ip, snap[j].ip),
        forall|i: int|
            0 <= i < snap.len() ==> d.restore(cache::names_of(snap), later).live_name(
                (#[trigger] snap[i]).ip,
                at,
            ) == if at.nanos < later.nanos + snap[i].remaining.nanos {
                Some(snap[i].domain@)
            } else {
                None
            },
        forall|ip: IpAddr|
            (forall|i: int| 0 <= i < snap.len() ==> (#[trigger] snap[i]).ip != ip)
                ==> #[trigger] d.restore(cache::names_of(snap), later).live_name(ip, at) is None,
        cache::total_len(d.restore(cache::names_of(snap), later).reverse) == snap.len(),
{
    let rows = cache::names_of(snap);
    let restored = d.restore(rows, later);
    lemma_rows_captured(c, rows, now);
    lemma_rows_ordered(c, snap, now);
    assert(cache::total_len(restored.reverse) == snap.len()) by {
        lemma_restore_count(c, d, rows, now, later);
    }
    lemma_restore(c, d, rows, now, later);
    assert forall|i: int| 0 <= i < snap.len() implies restored.live_name(
        (#[trigger] snap[i]).ip,
        at,
    ) == if at.nanos < later.nanos + snap[i].remaining.nanos {
        Some(snap[i].domain@)
    } else {
        None
    } by {
        assert(rows[i] == snap[i]@);
        assert(restored.name(rows[i].ip) == Some(restored_holder(rows[i], later)));
    }
    assert forall|ip: IpAddr|
        (forall|i: int|
            0 <= i < snap.len() ==> (
            #[trigger] snap[i]).ip != ip) implies #[trigger] restored.live_name(ip, at) is None by {
        if restored.name(ip) is Some {
            lemma_only_rows_named(restored, rows, ip);
            let a = choose|a: int| 0 <= a < rows.len() && (#[trigger] rows[a]).ip == ip;
            assert(snap[a]@ == rows[a]);
        }
    }
}

/// A cache stays valid whatever is restored into it.
proof fn lemma_restore_valid(m: CacheModel, rows: Seq<NameRow>, now: Instant)
    requires
        m.valid(),
    ensures
        m.restore(rows, now).valid(),
    decreases rows.len(),
{
    if rows.len() > 0 {
        let row = rows.last();
        let before = m.restore(rows.drop_last(), now);
        let holder = restored_holder(row, now);
        lemma_restore_valid(m, rows.drop_last(), now);
        before.law_keep_valid(Seq::empty(), arbitrary(), seq![row.ip], holder);
        assert(seq![row.ip].drop_last() =~= Seq::<IpAddr>::empty());
        assert(before.keep_names(Seq::empty(), holder) == before);
        assert(before.keep_names(seq![row.ip], holder) == before.keep_name(row.ip, holder));
    }
}

/// An entry without time left is skipped when it is restored; any other one
/// gives its address its domain, in the place of a name that was there.
pub proof fn law_restored_entry_overwrites(
    m: CacheModel,
    rows: Seq<NameRow>,
    row: NameRow,
    now: Instant,
)
    requires
        m.valid(),
    ensures
        row.remaining.nanos == 0 ==> m.restore(rows.push(row), now) == m.restore(rows, now),
        row.remaining.nanos > 0 ==> m.restore(rows.push(row), now).name(row.ip) == Some(
            restored_holder(row, now),
        ),
{
    let before = m.restore(rows, now);
    lemma_restore_valid(m, rows, now);
    assert(rows.push(row).drop_last() =~= rows);
    let i = cache::shard_of_ip(row.ip);
    assert(cache::reverse_shard_valid(before.reverse[i], i, before.rev_cap));
    cache::lemma_keep(
        before.reverse[i],
        before.rev_cap,
        cache::key_of_ip(row.ip),
        restored_holder(row, now),
    );
}

/// No mapping of the first shards is captured twice.
proof fn lemma_rows_distinct(m: CacheModel, shards: Seq<Seq<(IpKey, NameHolder)>>, now: Instant)
    requires
        m.valid(),
        shards.len() <= SHARDS,
        forall|i: int|
            0 <= i < shards.len() ==> #[trigger] shards[i] == cache::live_names(m.reverse[i], now),
    ensures
        cache::name_rows(shards, now).no_duplicates(),
    decreases shards.len(),
{
    if shards.len() > 0 {
        let head = shards.drop_last();
        let n = shards.len() - 1;
        let last = shards.last();
        assert forall|i: int| 0 <= i < head.len() implies #[trigger] head[i] == cache::live_names(
            m.reverse[i],
            now,
        ) by {
            assert(head[i] == shards[i]);
        }
        lemma_rows_distinct(m, head, now);
        lemma_name_rows(head, now);
        let front = cache::name_rows(head, now);
        let back = cache::mapping_rows(last, now);
        assert(last == cache::live_names(m.reverse[n], now));
        assert(cache::reverse_shard_valid(m.reverse[n], n, m.rev_cap));
        lemma_live_names(m.reverse[n], n, m.rev_cap, now);
        lemma_filter_distinct(m.reverse[n], now);
        assert forall|i: int, j: int| 0 <= i < j < back.len() implies back[i] != back[j] by {
            assert(last[i].0 != last[j].0);
            assert(back[i] == cache::name_row_of(last[i], now));
            assert(back[j] == cache::name_row_of(last[j], now));
            assert(cache::key_of_ip(back[i].ip) == last[i].0);
            assert(cache::key_of_ip(back[j].ip) == last[j].0);
        }
        assert forall|i: int, j: int| 0 <= i < front.len() && 0 <= j < back.len() implies front[i]
            != back[j] by {
            assert(front.contains(front[i]));
            assert(is_row(head, front[i], now));
            let (a, b) = choose|a: int, b: int|
                0 <= a < head.len() && 0 <= b < head[a].len() && cache::name_row_of(
                    #[trigger] head[a][b],
                    now,
                ) == front[i];
            assert(head[a] == shards[a]);
            assert(cache::reverse_shard_valid(m.reverse[a], a, m.rev_cap));
            lemma_live_names(m.reverse[a], a, m.rev_cap, now);
            assert(cache::shard_of_ip(cache::ip_of_key(head[a][b].0)) == a);
            assert(back[j] == cache::name_row_of(last[j], now));
            assert(cache::shard_of_ip(cache::ip_of_key(last[j].0)) == n);
        }
        let all = cache::name_rows(shards, now);
        assert(all == front + back);
        assert forall|i: int, j: int| 0 <= i < all.len() && 0 <= j < all.len() && i != j implies all[
            i
        ] != all[j] by {
            let (a, b) = if i < j {
                (i, j)
            } else {
                (j, i)
            };
            if b < front.len() {
                assert(front[a] != front[b]);
            } else if a >= front.len() {
                assert(back[a - front.len()] != back[b - front.len()]);
            } else {
                assert(front[a] != back[b - front.len()]);
            }
        }
    }
}

/// The live mappings of a shard have distinct keys where the shard has.
proof fn lemma_filter_distinct(shard: Seq<(IpKey, NameHolder)>, now: Instant)
    requires
        lru_store::lru_distinct(shard),
    ensures
        lru_store::lru_distinct(cache::live_names(shard, now)),
    decreases shard.len(),
{
    reveal(Seq::filter);
    let keep = |p: (IpKey, NameHolder)| p.1.expire_at.nanos > now.nanos;
    let out = cache::live_names(shard, now);
    if shard.len() > 0 {
        let head = shard.drop_last();
        let before = cache::live_names(head, now);
        lemma_filter_distinct(head, now);
        if keep(shard.last()) {
            assert(out == before.push(shard.last()));
            assert forall|i: int, j: int| 0 <= i < j < out.len() implies out[i].0 != out[j].0 by {
                if j == before.len() {
                    assert(before.contains(before[i]));
                    head.lemma_filter_contains_rev(keep, before[i]);
                    let n = choose|n: int| 0 <= n < head.len() && head[n] == before[i];
                    assert(shard[n].0 != shard[shard.len() - 1].0);
                }
            }
        } else {
            assert(out == before);
        }
    }
}

/// Mappings that were captured once each come to as many mappings again.
proof fn lemma_restore_count(
    m: CacheModel,
    empty: CacheModel,
    rows: Seq<NameRow>,
    now: Instant,
    later: Instant,
)
    requires
        m.valid(),
        empty.valid(),
        forall|i: int| 0 <= i < SHARDS ==> #[trigger] empty.reverse[i].len() == 0,
        empty.rev_cap >= m.rev_cap,
        forall|a: int| 0 <= a < rows.len() ==> captured(m, #[trigger] rows[a], now),
        rows.no_duplicates(),
    ensures
        cache::total_len(empty.restore(rows, later).reverse) == rows.len(),
    decreases rows.len(),
{
    if rows.len() == 0 {
        assert forall|i: int| 0 <= i < empty.reverse.len() implies #[trigger] empty.reverse[i].len()
            <= 0nat by {}
        lemma_total(empty.reverse, 0);
    } else {
        let head = rows.drop_last();
        let row = rows.last();
        assert forall|a: int| 0 <= a < head.len() implies captured(m, #[trigger] head[a], now) by {
            assert(captured(m, rows[a], now));
        }
        lemma_restore_count(m, empty, head, now, later);
        lemma_restore(m, empty, head, now, later);
        lemma_restore(m, empty, rows, now, later);
        assert(captured(m, rows[rows.len() - 1], now));
        let before = empty.restore(head, later);
        let after = empty.restore(rows, later);
        let i = cache::shard_of_ip(row.ip);
        let k = cache::key_of_ip(row.ip);
        let s = before.reverse[i];
        assert(cache::reverse_shard_valid(s, i, before.rev_cap));
        lru_store::lemma_lookup(s, k);
        if lru_store::lru_lookup(s, k) is Some {
            let v = lru_store::lru_lookup(s, k)->0;
            let n = choose|n: int| 0 <= n < s.len() && s[n] == (k, v);
            assert(has_key(rows_keys(head), before.reverse[i][n].0));
            let a = choose|a: int|
                0 <= a < rows_keys(head).len() && #[trigger] rows_keys(head)[a].0 == k;
            assert(captured(m, rows[a], now));
            assert(rows[a].ip == row.ip);
            assert(rows[a].remaining == row.remaining);
            assert(rows[a] == rows[rows.len() - 1]);
        }
        lru_store::lemma_without(s, k);
        lemma_restored_fits(m, empty, rows, now, later);
        assert(after.reverse == before.reverse.update(i, after.reverse[i]));
        lemma_total_update(before.reverse, i, after.reverse[i]);
    }
}

/// Restoring the last of some captured mappings pushes none out.
proof fn lemma_restored_fits(
    m: CacheModel,
    empty: CacheModel,
    rows: Seq<NameRow>,
    now: Instant,
    later: Instant,
)
    requires
        m.valid(),
        empty.valid(),
        forall|i: int| 0 <= i < SHARDS ==> #[trigger] empty.reverse[i].len() == 0,
        empty.rev_cap >= m.rev_cap,
        forall|a: int| 0 <= a < rows.len() ==> captured(m, #[trigger] rows[a], now),
        rows.len() > 0,
    ensures
        ({
            let row = rows.last();
            let before = empty.restore(rows.drop_last(), later);
            let i = cache::shard_of_ip(row.ip);
            let k = cache::key_of_ip(row.ip);
            empty.restore(rows, later).reverse[i].len() == lru_store::lru_without(
                before.reverse[i],
                k,
            ).len() + 1
        }),
{
    let head = rows.drop_last();
    let row = rows.last();
    assert forall|a: int| 0 <= a < head.len() implies captured(m, #[trigger] head[a], now) by {
        assert(captured(m, rows[a], now));
    }
    lemma_restore(m, empty, head, now, later);
    assert(captured(m, rows[rows.len() - 1], now));
    let before = empty.restore(head, later);
    let i = cache::shard_of_ip(row.ip);
    let k = cache::key_of_ip(row.ip);
    let s = before.reverse[i];
    let holder = restored_holder(row, later);
    assert(cache::reverse_shard_valid(s, i, before.rev_cap));
    assert(cache::reverse_shard_valid(m.reverse[i], i, m.rev_cap));
    lru_store::lemma_put(s, s.len() + 1, k, holder);
    lru_store::lemma_without(s, k);
    lru_store::lemma_lookup(m.reverse[i], k);
    let t = lru_store::lru_put(s, s.len() + 1, k, holder);
    assert forall|j: int| 0 <= j < t.len() implies has_key(m.reverse[i], #[trigger] t[j].0) by {
        if j > 0 {
            assert(t[j] == lru_store::lru_without(s, k)[j - 1]);
            let n = choose|n: int| 0 <= n < s.len() && s[n] == t[j];
            assert(has_key(m.reverse[i], before.reverse[i][n].0));
        } else {
            let h = m.name(row.ip)->0;
            let n = choose|n: int| 0 <= n < m.reverse[i].len() && m.reverse[i][n] == (k, h);
            assert(m.reverse[i][n].0 == k);
        }
    }
    lemma_subset_len(t, m.reverse[i]);
    assert(t == seq![(k, holder)] + lru_store::lru_without(s, k));
}

/// The keys of captured mappings, as pairs.
spec fn rows_keys(rows: Seq<NameRow>) -> Seq<(IpKey, Seq<char>)> {
    rows.map_values(|r: NameRow| (cache::key_of_ip(r.ip), r.domain))
}

/// Whether a row captures the live mapping that its address has.
spec fn captured(m: CacheModel, r: NameRow, now: Instant) -> bool {
    match m.name(r.ip) {
        Some(h) => {
            &&& h.expire_at.nanos > now.nanos
            &&& r.domain == h.domain
            &&& r.remaining.nanos == h.expire_at.nanos - now.nanos
        },
        None => false,
    }
}

#[verifier::rlimit(60)]
#[verifier::spinoff_prover]
proof fn lemma_restore(
    m: CacheModel,
    empty: CacheModel,
    rows: Seq<NameRow>,
    now: Instant,
    later: Instant,
)
    requires
        m.valid(),
        empty.valid(),
        forall|i: int| 0 <= i < SHARDS ==> #[trigger] empty.reverse[i].len() == 0,
        empty.rev_cap >= m.rev_cap,
        forall|a: int| 0 <= a < rows.len() ==> captured(m, #[trigger] rows[a], now),
    ensures
        empty.restore(rows, later).valid(),
        empty.restore(rows, later).rev_cap == empty.rev_cap,
        forall|i: int, j: int|
            0 <= i < SHARDS && 0 <= j < empty.restore(rows, later).reverse[i].len() ==> has_key(
                m.reverse[i],
                (#[trigger] empty.restore(rows, later).reverse[i][j]).0,
            ) && has_key(rows_keys(rows), empty.restore(rows, later).reverse[i][j].0),
        forall|a: int|
            0 <= a < rows.len() ==> empty.restore(rows, later).name(#[trigger] rows[a].ip) == Some(
                restored_holder(rows[a], later),
            ),
    decreases rows.len(),
{
    if rows.len() > 0 {
        let head = rows.drop_last();
        let row = rows.last();
        assert forall|a: int| 0 <= a < head.len() implies captured(m, #[trigger] head[a], now) by {
            assert(captured(m, rows[a], now));
        }
        lemma_restore(m, empty, head, now, later);
        assert(captured(m, rows[rows.len() - 1], now));
        let before = empty.restore(head, later);
        let after = empty.restore(rows, later);
        let holder = restored_holder(row, later);
        assert(row.remaining.nanos > 0);
        assert(after == before.keep_name(row.ip, holder));
        before.law_keep_valid(Seq::empty(), arbitrary(), seq![row.ip], holder);
        assert(seq![row.ip].drop_last() =~= Seq::<IpAddr>::empty());
        assert(before.keep_names(Seq::empty(), holder) == before);
        assert(before.keep_names(seq![row.ip], holder) == after);
        let i = cache::shard_of_ip(row.ip);
        let k = cache::key_of_ip(row.ip);
        let s = before.reverse[i];
        assert(cache::reverse_shard_valid(s, i, before.rev_cap));
        assert(cache::reverse_shard_valid(m.reverse[i], i, m.rev_cap));
        lru_store::lemma_put(s, s.len() + 1, k, holder);
        lru_store::lemma_without(s, k);
        lru_store::lemma_lookup(m.reverse[i], k);
        let t = lru_store::lru_put(s, s.len() + 1, k, holder);
        assert forall|j: int| 0 <= j < t.len() implies has_key(m.reverse[i], #[trigger] t[j].0) by {
            if j > 0 {
                assert(t[j] == lru_store::lru_without(s, k)[j - 1]);
                let n = choose|n: int| 0 <= n < s.len() && s[n] == t[j];
                assert(has_key(m.reverse[i], before.reverse[i][n].0));
            } else {
                let h = m.name(row.ip)->0;
                let n = choose|n: int| 0 <= n < m.reverse[i].len() && m.reverse[i][n] == (k, h);
                assert(m.reverse[i][n].0 == k);
            }
        }
        lemma_subset_len(t, m.reverse[i]);
        assert(after.reverse[i] == t);
        assert forall|i2: int, j: int|
            0 <= i2 < SHARDS && 0 <= j < after.reverse[i2].len() implies has_key(
            m.reverse[i2],
            (#[trigger] after.reverse[i2][j]).0,
        ) && has_key(rows_keys(rows), after.reverse[i2][j].0) by {
            let key = after.reverse[i2][j].0;
            if i2 == i && j == 0 {
                assert(rows_keys(rows)[rows.len() - 1].0 == key);
                assert(has_key(m.reverse[i], t[0].0));
            } else {
                let n = if i2 == i {
                    assert(t[j] == lru_store::lru_without(s, k)[j - 1]);
                    choose|n: int| 0 <= n < s.len() && s[n] == t[j]
                } else {
                    j
                };
                assert(has_key(m.reverse[i2], before.reverse[i2][n].0));
                assert(has_key(rows_keys(head), before.reverse[i2][n].0));
                let a = choose|a: int|
                    0 <= a < rows_keys(head).len() && #[trigger] rows_keys(head)[a].0 == key;
                assert(rows_keys(rows)[a].0 == key);
            }
        }
        assert forall|a: int| 0 <= a < rows.len() implies after.name(#[trigger] rows[a].ip) == Some(
            restored_holder(rows[a], later),
        ) by {
            let ip = rows[a].ip;
            assert(captured(m, rows[a], now));
            if ip == row.ip {
                assert(rows[a] == row) by {
                    assert(rows[a].domain == row.domain);
                    assert(rows[a].remaining == row.remaining);
                }
            } else {
                assert(head[a] == rows[a]);
                assert(before.name(head[a].ip) == Some(restored_holder(head[a], later)));
                if cache::shard_of_ip(ip) == i {
                    assert(cache::key_of_ip(ip) != k);
                    assert(lru_store::lru_lookup(t, cache::key_of_ip(ip)) == lru_store::lru_lookup(
                        s,
                        cache::key_of_ip(ip),
                    ));
                }
            }
        }
    }
}

} // verus!
