//! What holds of every use of the answer cache, call by call.
use crate::clock::{Duration, Instant};
use crate::dns::cache;
use crate::dns::cache::{
    family_hit, fnv1a32, per_shard_cap, shard_str, sort_ips, CacheLookup, DnsCache, FamilyCacheHit,
    ReverseSnapshotEntry,
};
use crate::dns::cache_laws;
use crate::dns::families;
use crate::dns::families::QueryFamilies;
use crate::dns::ip_list::IpList;
use crate::dns::lru_store;
use crate::dns::lru_store::CacheEntry;
use crate::net;
use crate::net::IpAddr;
use crate::text;
use crate::text_laws;
use crate::text_laws::alike;
use vstd::prelude::*;
use vstd::utf8::encode_utf8;

verus! {

/// The IPv4 addresses of a list in their order, then its IPv6 addresses in
/// theirs.
pub open spec fn four_then_six(ips: Seq<IpAddr>) -> Seq<IpAddr> {
    ips.filter(|ip: IpAddr| ip is V4) + ips.filter(|ip: IpAddr| ip is V6)
}

proof fn lemma_four_then_six(ips: Seq<IpAddr>)
    ensures
        cache::of_family(ips, QueryFamilies::IPV4) == ips.filter(|ip: IpAddr| ip is V4),
        cache::of_family(ips, QueryFamilies::IPV6) == ips.filter(|ip: IpAddr| ip is V6),
{
    let p4 = |ip: IpAddr| QueryFamilies::IPV4.includes(families::family_of(ip));
    let p6 = |ip: IpAddr| QueryFamilies::IPV6.includes(families::family_of(ip));
    assert(p4 =~= |ip: IpAddr| ip is V4);
    assert(p6 =~= |ip: IpAddr| ip is V6);
}

/// An answer that was put is read back under any spelling of its domain until
/// its life is over, and not from then on.
pub proof fn law_answer_is_read_back(
    put_in: &mut DnsCache,
    read_from: &mut DnsCache,
    domain: &str,
    spelling: &str,
    ips: &[IpAddr],
    ttl: Duration,
    source: Option<&str>,
    now: Instant,
    at: Instant,
    done: (),
    out: Option<(IpList, Duration)>,
)
    requires
        old(put_in).wf(),
        call_ensures(DnsCache::put_with_source, (put_in, domain, ips, ttl, source, now), done),
        *old(read_from) == *final(put_in),
        call_ensures(DnsCache::get_with_ttl, (read_from, spelling, at), out),
        alike(spelling@, domain@),
        now.nanos + ttl.nanos <= u128::MAX,
        now.nanos + 600_000_000_000 <= u128::MAX,
    ensures
        at.nanos < now.nanos + ttl.nanos ==> (out matches Some(p) && p.0@ == four_then_six(ips@)
            && (ips@.len() > 0 ==> p.1.nanos == now.nanos + ttl.nanos - at.nanos)),
        at.nanos >= now.nanos + ttl.nanos ==> out is None,
{
    text_laws::lemma_alike(spelling@, domain@);
    cache_laws::law_put_then_get(
        old(put_in)@,
        domain@,
        spelling@,
        ips@,
        ttl,
        cache::str_of(source),
        now,
        at,
    );
    lemma_four_then_six(ips@);
}

/// A domain that was not put is not found in a fresh cache, nor after the cache
/// was cleared.
pub proof fn law_nothing_is_made_up(
    capacity: usize,
    fresh: DnsCache,
    read_from: &mut DnsCache,
    cleared: &mut DnsCache,
    again: &mut DnsCache,
    domain: &str,
    at: Instant,
    done: (),
    first: Option<IpList>,
    second: Option<IpList>,
)
    requires
        call_ensures(DnsCache::new, (capacity,), fresh),
        *old(read_from) == fresh,
        call_ensures(DnsCache::get, (read_from, domain, at), first),
        old(cleared).wf(),
        call_ensures(DnsCache::clear, (cleared,), done),
        *old(again) == *final(cleared),
        call_ensures(DnsCache::get, (again, domain, at), second),
    ensures
        first is None,
        second is None,
{
    let key = text::ascii_lower(domain@);
    let i = cache::shard_of(key);
    assert(fresh@.forward[i].len() == 0);
    assert(final(cleared)@.forward[i].len() == 0);
}

/// How many answers a shard keeps: a sixteenth of the capacity, but at least
/// eight; and of names a sixteenth of four times the capacity, but at least
/// sixteen.
pub proof fn law_room(capacity: usize, c: DnsCache, total: usize, min: usize, cap: usize)
    requires
        call_ensures(DnsCache::new, (capacity,), c),
        call_ensures(per_shard_cap, (total, min), cap),
    ensures
        capacity < 144 ==> c@.fwd_cap == 8,
        capacity >= 128 ==> c@.fwd_cap == capacity / 16,
        capacity < 68 ==> c@.rev_cap == 16,
        64 <= capacity && capacity * 4 <= usize::MAX ==> c@.rev_cap == capacity / 4,
        cap >= min,
        total / 16 >= min ==> cap == total / 16,
        total / 16 < min ==> cap == min,
{
}

/// Two domains that were put one after the other into a fresh cache are both
/// found.
pub proof fn law_two_domains(
    capacity: usize,
    fresh: DnsCache,
    one: &mut DnsCache,
    two: &mut DnsCache,
    read_from: &mut DnsCache,
    a: &str,
    b: &str,
    ips: &[IpAddr],
    others: &[IpAddr],
    ttl: Duration,
    now: Instant,
    at: Instant,
    done: (),
    out: Option<IpList>,
)
    requires
        call_ensures(DnsCache::new, (capacity,), fresh),
        *old(one) == fresh,
        call_ensures(DnsCache::put, (one, a, ips, ttl, now), done),
        *old(two) == *final(one),
        call_ensures(DnsCache::put, (two, b, others, ttl, now), done),
        *old(read_from) == *final(two),
        call_ensures(DnsCache::get, (read_from, a, at), out),
        !alike(a@, b@),
        now.nanos + ttl.nanos <= u128::MAX,
        now.nanos + 600_000_000_000 <= u128::MAX,
        at.nanos < now.nanos + ttl.nanos,
    ensures
        out matches Some(l) && l@ == four_then_six(ips@),
{
    text_laws::lemma_alike(a@, b@);
    let ka = text::ascii_lower(a@);
    let kb = text::ascii_lower(b@);
    text::lemma_lower_idempotent(a@);
    text::lemma_lower_idempotent(b@);
    cache_laws::law_put_then_get(fresh@, a@, a@, ips@, ttl, None, now, at);
    lemma_four_then_six(ips@);
    let m0 = fresh@;
    let ha = cache::holder_of(a@, ttl, now);
    let hb = cache::holder_of(b@, ttl, now);
    m0.law_keep_valid(ka, arbitrary(), ips@, ha);
    let m1 = final(one)@;
    m1.law_keep_valid(kb, arbitrary(), others@, hb);
    let named = m1.keep_names(others@, hb);
    lemma_names_keep_answers(m1, others@, hb);
    lemma_names_keep_answers(m0, ips@, ha);
    let i = cache::shard_of(kb);
    let first = m0.keep_names(ips@, ha);
    assert(m0.forward[i].len() == 0);
    assert(first.forward == m0.forward);
    assert(m1.forward[i].len() <= 1) by {
        if i == cache::shard_of(ka) {
            assert(lru_store::lru_without(m0.forward[i], ka).len() == 0);
        }
    }
    let expire = Instant { nanos: (now.nanos + ttl.nanos) as u128 };
    let added = lru_store::Answer {
        ips: others@,
        expire_v4: expire,
        expire_v6: expire,
        source: None,
        queried: cache::families_of(others@),
    };
    cache_laws::law_keep_other_answers(named, kb, added, ka);
    assert(final(two)@.answer(ka) == m1.answer(ka));
}

proof fn lemma_names_keep_answers(
    m: cache::CacheModel,
    ips: Seq<IpAddr>,
    holder: lru_store::NameHolder,
)
    ensures
        m.keep_names(ips, holder).forward == m.forward,
        m.keep_names(ips, holder).fwd_cap == m.fwd_cap,
    decreases ips.len(),
{
    if ips.len() > 0 {
        lemma_names_keep_answers(m, ips.drop_last(), holder);
    }
}

/// The domain in lower case.
pub open spec fn lowered(out: Seq<char>, s: Seq<char>) -> bool {
    alike(out, s) && forall|i: int|
        0 <= i < out.len() ==> !('A' <= #[trigger] out[i] && out[i] <= 'Z')
}

proof fn lemma_lowered(s: Seq<char>)
    ensures
        lowered(text::ascii_lower(s), s),
{
    let out = text::ascii_lower(s);
    text::lemma_lower_idempotent(s);
    text_laws::lemma_alike(out, s);
    assert forall|i: int| 0 <= i < out.len() implies !('A' <= #[trigger] out[i] && out[i]
        <= 'Z') by {
        assert(out[i] == text::lower_char(s[i]));
        lemma_lower_char(s[i]);
    }
}

proof fn lemma_lower_char(c: char)
    ensures
        !('A' <= text::lower_char(c) && text::lower_char(c) <= 'Z'),
{
    let x = c as u8;
    if 'A' <= c && c <= 'Z' {
        assert(x as int == c as int);
        assert(text::lower_char(c) as int == c as int + 32);
    }
}

/// Each of up to sixteen addresses that were put is mapped back to its domain,
/// in lower case, as long as the answer lives, but for ten minutes at least, and
/// no longer.
pub proof fn law_addresses_are_named(
    put_in: &mut DnsCache,
    read_from: &mut DnsCache,
    domain: &str,
    ips: &[IpAddr],
    ttl: Duration,
    source: Option<&str>,
    now: Instant,
    at: Instant,
    i: int,
    done: (),
    out: Option<String>,
)
    requires
        old(put_in).wf(),
        call_ensures(DnsCache::put_with_source, (put_in, domain, ips, ttl, source, now), done),
        *old(read_from) == *final(put_in),
        0 <= i < ips@.len() <= 16,
        call_ensures(DnsCache::reverse_lookup, (read_from, ips@[i], at), out),
        now.nanos + ttl.nanos <= u128::MAX,
        now.nanos + 600_000_000_000 <= u128::MAX,
    ensures
        at.nanos < now.nanos + ttl.nanos || at.nanos < now.nanos + 600_000_000_000 ==> (
        out matches Some(d) && lowered(d@, domain@)),
        at.nanos >= now.nanos + ttl.nanos && at.nanos >= now.nanos + 600_000_000_000 ==> out
            is None,
{
    let m = old(put_in)@;
    lemma_few(ips@.skip(i), cache::shard_of_ip(ips@[i]));
    cache_laws::law_put_names_addresses(
        m,
        domain@,
        QueryFamilies::IPV4,
        ips@,
        ttl,
        cache::str_of(source),
        now,
        i,
    );
    lemma_lowered(domain@);
}

proof fn lemma_few(ips: Seq<IpAddr>, shard: int)
    ensures
        cache_laws::sharing(ips, shard).len() <= ips.len(),
{
    ips.lemma_cardinality_of_set();
    vstd::seq_lib::seq_to_set_is_finite(ips);
    vstd::set_lib::lemma_len_subset(cache_laws::sharing(ips, shard), ips.to_set());
}

/// A name that was set for an address is found until its end, as it was set.
pub proof fn law_name_is_set(
    put_in: &mut DnsCache,
    read_from: &mut DnsCache,
    ip: IpAddr,
    domain: &str,
    end: Instant,
    at: Instant,
    done: (),
    out: Option<String>,
)
    requires
        old(put_in).wf(),
        call_ensures(DnsCache::put_reverse_with_expiry, (put_in, ip, domain, end), done),
        *old(read_from) == *final(put_in),
        call_ensures(DnsCache::reverse_lookup, (read_from, ip, at), out),
    ensures
        at.nanos < end.nanos ==> (out matches Some(d) && d@ == domain@),
        at.nanos >= end.nanos ==> out is None,
{
    lemma_kept_name(
        old(put_in)@,
        ip,
        lru_store::NameHolder { domain: domain@, expire_at: end },
    );
}

proof fn lemma_kept_name(m: cache::CacheModel, ip: IpAddr, holder: lru_store::NameHolder)
    requires
        m.valid(),
    ensures
        m.keep_name(ip, holder).name(ip) == Some(holder),
{
    let i = cache::shard_of_ip(ip);
    assert(cache::reverse_shard_valid(m.reverse[i], i, m.rev_cap));
    cache::lemma_keep(m.reverse[i], m.rev_cap, cache::key_of_ip(ip), holder);
}

/// A name that is brought back lives on for what was left of its life; one
/// whose life is over is left out.
pub proof fn law_name_is_brought_back(
    put_in: &mut DnsCache,
    read_from: &mut DnsCache,
    entries: Vec<ReverseSnapshotEntry>,
    e: ReverseSnapshotEntry,
    now: Instant,
    at: Instant,
    done: (),
    out: Option<String>,
)
    requires
        old(put_in).wf(),
        entries@ == seq![e],
        call_ensures(DnsCache::restore_reverse, (put_in, entries, now), done),
        *old(read_from) == *final(put_in),
        call_ensures(DnsCache::reverse_lookup, (read_from, e.ip, at), out),
        now.nanos + e.remaining.nanos <= u128::MAX,
    ensures
        e.remaining.nanos > 0 && at.nanos < now.nanos + e.remaining.nanos ==> (out matches Some(d)
            && d@ == e.domain@),
        e.remaining.nanos > 0 && at.nanos >= now.nanos + e.remaining.nanos ==> out is None,
        e.remaining.nanos == 0 ==> final(put_in)@ == old(put_in)@,
{
    let rows = cache::names_of(entries@);
    assert(rows.len() == 1 && rows[0] == e@);
    assert(rows.drop_last() =~= Seq::empty());
    assert(old(put_in)@.restore(rows.drop_last(), now) == old(put_in)@);
    if e.remaining.nanos > 0 {
        lemma_kept_name(
            old(put_in)@,
            e.ip,
            lru_store::NameHolder {
                domain: e.domain@,
                expire_at: Instant { nanos: (now.nanos + e.remaining.nanos) as u128 },
            },
        );
    }
}

/// Each family of an answer lives for itself: merging one keeps the other while
/// that is fresh, and a read gives the addresses of the families that are.
pub proof fn law_families_side_by_side(
    one: &mut DnsCache,
    two: &mut DnsCache,
    read_from: &mut DnsCache,
    domain: &str,
    v4: &[IpAddr],
    v6: &[IpAddr],
    ttl4: Duration,
    ttl6: Duration,
    now: Instant,
    then: Instant,
    at: Instant,
    done: (),
    out: Option<CacheLookup>,
    ip: IpAddr,
)
    requires
        old(one).wf(),
        call_ensures(
            DnsCache::merge_family,
            (one, domain, QueryFamilies::IPV4, v4, ttl4, None::<&str>, now),
            done,
        ),
        *old(two) == *final(one),
        call_ensures(
            DnsCache::merge_family,
            (two, domain, QueryFamilies::IPV6, v6, ttl6, None::<&str>, then),
            done,
        ),
        *old(read_from) == *final(two),
        call_ensures(DnsCache::get_lookup, (read_from, domain, at), out),
        forall|i: int| 0 <= i < v4@.len() ==> (#[trigger] v4@[i]) is V4,
        forall|i: int| 0 <= i < v6@.len() ==> (#[trigger] v6@[i]) is V6,
        now.nanos + ttl4.nanos <= u128::MAX,
        now.nanos + 600_000_000_000 <= u128::MAX,
        then.nanos + ttl6.nanos <= u128::MAX,
        then.nanos + 600_000_000_000 <= u128::MAX,
        then.nanos < now.nanos + ttl4.nanos,
        at.nanos < then.nanos + ttl6.nanos,
    ensures
        out matches Some(l) && {
            &&& l.ips@.contains(ip) <==> v6@.contains(ip) || (v4@.contains(ip) && at.nanos
                < now.nanos + ttl4.nanos)
            &&& v6@.len() == 0 <==> l.v6 is NoData
            &&& at.nanos < now.nanos + ttl4.nanos ==> (v4@.len() == 0 <==> l.v4 is NoData)
            &&& at.nanos >= now.nanos + ttl4.nanos ==> l.v4 is Miss
            &&& l.v6 matches FamilyCacheHit::Answer(_, left) ==> left.nanos == then.nanos
                + ttl6.nanos - at.nanos
        },
{
    let key = text::ascii_lower(domain@);
    assert forall|i: int| 0 <= i < v4@.len() implies families::family_of(#[trigger] v4@[i])
        == QueryFamilies::IPV4 by {
        assert(v4@[i] is V4);
    }
    assert forall|i: int| 0 <= i < v6@.len() implies families::family_of(#[trigger] v6@[i])
        == QueryFamilies::IPV6 by {
        assert(v6@[i] is V6);
    }
    cache_laws::law_merge_then_get(
        old(one)@,
        domain@,
        QueryFamilies::IPV4,
        v4@,
        ttl4,
        None,
        now,
        then,
    );
    let first = old(two)@.answer(key)->0;
    cache_laws::law_merge_then_get(
        old(two)@,
        domain@,
        QueryFamilies::IPV6,
        v6@,
        ttl6,
        None,
        then,
        at,
    );
    let a = old(read_from)@.answer(key)->0;
    let f4 = cache::of_family(a.ips, QueryFamilies::IPV4);
    let f6 = cache::of_family(a.ips, QueryFamilies::IPV6);
    assert(cache::fresh(first, QueryFamilies::IPV4, then));
    assert(cache::keeps_other(old(two)@.answer(key), QueryFamilies::IPV6, then));
    assert(cache::fresh(a, QueryFamilies::IPV6, at));
    assert(cache::fresh(a, QueryFamilies::IPV4, at) == (at.nanos < now.nanos + ttl4.nanos));
    lemma_some(f4, v4@);
    lemma_some(f6, v6@);
    let l = out->0;
    let h4 = cache::hit_ips(l.v4@);
    let h6 = cache::hit_ips(l.v6@);
    assert(h6 =~= f6) by {
        if f6.len() == 0 {
            assert(f6 =~= Seq::empty());
        }
    }
    assert(at.nanos < now.nanos + ttl4.nanos ==> h4 =~= f4) by {
        if f4.len() == 0 {
            assert(f4 =~= Seq::empty());
        }
    }
    lemma_both(h4, h6, ip);
    assert(f4.contains(ip) <==> v4@.contains(ip));
    assert(f6.contains(ip) <==> v6@.contains(ip));
}

proof fn lemma_some(a: Seq<IpAddr>, b: Seq<IpAddr>)
    requires
        forall|ip: IpAddr| #[trigger] a.contains(ip) <==> b.contains(ip),
    ensures
        a.len() == 0 <==> b.len() == 0,
{
    if a.len() > 0 {
        assert(a.contains(a[0]));
        assert(b.contains(a[0]));
    }
    if b.len() > 0 {
        assert(b.contains(b[0]));
        assert(a.contains(b[0]));
    }
}

proof fn lemma_both(a: Seq<IpAddr>, b: Seq<IpAddr>, ip: IpAddr)
    ensures
        (a + b).contains(ip) <==> a.contains(ip) || b.contains(ip),
{
    if a.contains(ip) {
        let i = choose|i: int| 0 <= i < a.len() && a[i] == ip;
        assert((a + b)[i] == ip);
    }
    if b.contains(ip) {
        let i = choose|i: int| 0 <= i < b.len() && b[i] == ip;
        assert((a + b)[a.len() + i] == ip);
    }
    if (a + b).contains(ip) {
        let i = choose|i: int| 0 <= i < (a + b).len() && (a + b)[i] == ip;
        if i < a.len() {
            assert(a[i] == ip);
        } else {
            assert(b[i - a.len()] == ip);
        }
    }
}

/// Whether an address comes strictly before another: IPv4 before IPv6, then the
/// smaller number.
pub open spec fn comes_before(a: IpAddr, b: IpAddr) -> bool {
    match (a, b) {
        (IpAddr::V4(x), IpAddr::V4(y)) => x < y,
        (IpAddr::V4(_), IpAddr::V6(_)) => true,
        (IpAddr::V6(_), IpAddr::V4(_)) => false,
        (IpAddr::V6(x), IpAddr::V6(y)) => x < y,
    }
}

/// Sorting addresses puts them in order and keeps each of them once.
pub proof fn law_sorted_addresses(ips: &[IpAddr], out: Vec<IpAddr>, ip: IpAddr)
    requires
        call_ensures(sort_ips, (ips,), out),
    ensures
        forall|i: int, j: int|
            0 <= i < j < out@.len() ==> comes_before(#[trigger] out@[i], #[trigger] out@[j]),
        out@.contains(ip) <==> ips@.contains(ip),
{
    cache::law_sorted_ips(ips@);
    assert forall|i: int, j: int| 0 <= i < j < out@.len() implies comes_before(
        #[trigger] out@[i],
        #[trigger] out@[j],
    ) by {
        assert(net::ip_before(out@[i], out@[j]));
    }
}

/// The hash of some bytes: it begins with 2166136261, and each byte is mixed in
/// by an exclusive or and a multiplication by 16777619, in 32 bits. A domain's
/// shard is the hash of its bytes, modulo sixteen.
pub proof fn law_hash(
    none: &[u8],
    bytes: &[u8],
    more: &[u8],
    b: u8,
    zero: u32,
    h: u32,
    g: u32,
    s: &str,
    shard: usize,
)
    requires
        none@.len() == 0,
        more@ == bytes@.push(b),
        call_ensures(fnv1a32, (none,), zero),
        call_ensures(fnv1a32, (bytes,), h),
        call_ensures(fnv1a32, (more,), g),
        call_ensures(shard_str, (s,), shard),
        bytes@ == encode_utf8(s@),
    ensures
        zero == 2166136261,
        g == ((h ^ (b as u32)) * 16777619) % 4294967296,
        shard == h % 16,
{
    assert(more@.drop_last() =~= bytes@);
}

/// What one family of an entry is good for: nothing when it is not fresh, an
/// answer without addresses when it has none, and otherwise its addresses in
/// their order, until its own end.
pub proof fn law_one_family(
    entry: &CacheEntry,
    fresh: bool,
    now: Instant,
    four: FamilyCacheHit,
    six: FamilyCacheHit,
)
    requires
        call_ensures(family_hit, (entry, QueryFamilies::IPV4, fresh, now), four),
        call_ensures(family_hit, (entry, QueryFamilies::IPV6, fresh, now), six),
        entry@.expire_v4.nanos >= now.nanos,
        entry@.expire_v6.nanos >= now.nanos,
    ensures
        !fresh ==> four is Miss && six is Miss,
        fresh ==> (four is NoData <==> entry@.ips.filter(|ip: IpAddr| ip is V4).len() == 0),
        fresh ==> (six is NoData <==> entry@.ips.filter(|ip: IpAddr| ip is V6).len() == 0),
        four matches FamilyCacheHit::Answer(l, left) ==> l@ == entry@.ips.filter(
            |ip: IpAddr| ip is V4,
        ) && left.nanos == entry@.expire_v4.nanos - now.nanos,
        six matches FamilyCacheHit::Answer(l, left) ==> l@ == entry@.ips.filter(
            |ip: IpAddr| ip is V6,
        ) && left.nanos == entry@.expire_v6.nanos - now.nanos,
{
    lemma_four_then_six(entry@.ips);
}

/// A fresh cache holds no answer and no name.
pub proof fn law_fresh_is_empty(capacity: usize, c: DnsCache, answers: usize, names: usize)
    requires
        call_ensures(DnsCache::new, (capacity,), c),
        call_ensures(DnsCache::forward_len, (&c,), answers),
        call_ensures(DnsCache::reverse_len, (&c,), names),
    ensures
        answers == 0,
        names == 0,
{
    lemma_no_length(c@.forward);
    lemma_no_length(c@.reverse);
}

proof fn lemma_no_length<A>(shards: Seq<Seq<A>>)
    requires
        forall|i: int| 0 <= i < shards.len() ==> (#[trigger] shards[i]).len() == 0,
    ensures
        cache::total_len(shards) == 0,
    decreases shards.len(),
{
    if shards.len() > 0 {
        assert(shards[shards.len() - 1].len() == 0);
        lemma_no_length(shards.drop_last());
    }
}

} // verus!
