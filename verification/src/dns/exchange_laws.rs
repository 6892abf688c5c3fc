//! What holds of every exchange with a DNS server and every snapshot of the
//! cache.
use crate::clock::{Duration, Instant};
use crate::dns::answers::{canonical_name, ip_from_record};
use crate::dns::cache;
use crate::dns::cache::{DnsCache, DnsCacheSnapshotEntry, SnapshotRow};
use crate::dns::client::{
    decode_validated_response, reusable_streams, validate_response, ClientError, DnsClient,
    ExpectedResponse, QueryStep, TcpPool, Transport,
};
use crate::dns::lru_store;
use crate::dns::lru_store::Answer;
use crate::dns::message;
use crate::dns::message::{
    decode_message, DnsMessage, DnsName, Record, RecordData, ResponseCode,
};
use crate::net::{IpAddr, SocketAddr};
use crate::text;
use vstd::prelude::*;

verus! {

/// A response is taken when it can be read and is the one that was waited for,
/// and then it is what was read.
pub proof fn law_response_is_taken(
    wire: &[u8],
    expected: &ExpectedResponse,
    read: Result<DnsMessage, String>,
    valid: Result<(), ClientError>,
    r: Result<DnsMessage, ClientError>,
)
    requires
        call_ensures(decode_validated_response, (wire, expected), r),
        call_ensures(decode_message, (wire,), read),
        read matches Ok(m) ==> call_ensures(validate_response, (&m, expected), valid),
    ensures
        read is Err ==> r is Err,
        read is Ok && valid is Err ==> r is Err,
        read is Ok && valid is Ok ==> (r matches Ok(d) && d@ == read->Ok_0@),
{
}

/// A client that is made for a fixed answer gives it to every question, with
/// no record in it.
pub proof fn law_fixed_answer(
    c: &DnsClient,
    code: ResponseCode,
    name: &str,
    record_type: u16,
    r: Result<QueryStep, ClientError>,
)
    requires
        call_ensures(DnsClient::start_query, (c, name, record_type), r),
        c.transport == (Transport::RCode { code }),
    ensures
        message::parsed_name(name@) is None ==> r is Err,
        message::parsed_name(name@) matches Some(parsed) ==> (r matches Ok(QueryStep::Answered(m))
            && m@.response_code == code && m@.message_type is Response && m@.answers.len() == 0
            && m@.authorities.len() == 0 && m@.queries.len() == 1 && m@.queries[0].name == parsed
            && m@.queries[0].query_type == record_type && m@.queries[0].query_class == 1),
{
}

/// A question that is sent names what is asked, and its answer is waited for
/// under the number that was sent.
pub proof fn law_question_is_sent(
    c: &DnsClient,
    name: &str,
    record_type: u16,
    r: Result<QueryStep, ClientError>,
)
    requires
        call_ensures(DnsClient::start_query, (c, name, record_type), r),
        !(c.transport is RCode),
    ensures
        message::parsed_name(name@) is None ==> r is Err,
        c.proxy is Some && (c.transport is Dot || c.transport is Doh) ==> r is Err,
        r matches Ok(step) ==> (step matches QueryStep::Send { wire, expected, route }
            && message::encoded_query(expected.id, name@, record_type, true) == Ok::<
            Seq<u8>,
            Seq<char>,
        >(wire@) && Some(expected.query@.name) == message::parsed_name(name@)
            && expected.query@.query_type == record_type && expected.query@.query_class == 1),
{
}

/// A new client waits five seconds, has no proxy and no label, and can be given
/// each of them.
pub proof fn law_new_clients(
    addr: SocketAddr,
    udp: DnsClient,
    tcp: DnsClient,
    t: Duration,
    proxy: String,
    label: String,
    slow: DnsClient,
    proxied: DnsClient,
    labelled: DnsClient,
    plain: bool,
    through: bool,
)
    requires
        call_ensures(DnsClient::udp, (addr,), udp),
        call_ensures(DnsClient::tcp, (addr,), tcp),
        call_ensures(DnsClient::with_timeout, (udp, t), slow),
        call_ensures(DnsClient::with_proxy, (udp, proxy), proxied),
        call_ensures(DnsClient::with_upstream_label, (udp, label), labelled),
        call_ensures(DnsClient::is_proxied, (&udp,), plain),
        call_ensures(DnsClient::is_proxied, (&proxied,), through),
    ensures
        udp.transport matches Transport::Udp { addr: a } && a == addr,
        tcp.transport matches Transport::Tcp { addr: a } && a == addr,
        udp.timeout.nanos == 5_000_000_000 && tcp.timeout.nanos == 5_000_000_000,
        slow.timeout == t && slow.transport == udp.transport,
        proxied.proxy == Some(proxy) && proxied.transport == udp.transport && proxied.timeout
            == udp.timeout,
        labelled.label == Some(label) && labelled.transport == udp.transport,
        !plain && through,
{
}

/// A stream that was returned to a pool with room is handed out again within
/// thirty seconds; a pool holds four, and drops what comes beyond that.
pub proof fn law_returned_stream<T>(
    fresh: TcpPool<T>,
    p: &mut TcpPool<T>,
    q: &mut TcpPool<T>,
    stream: T,
    now: Instant,
    at: Instant,
    done: (),
    out: Option<T>,
)
    requires
        call_ensures(TcpPool::<T>::new, (), fresh),
        old(p).wf(),
        old(p).idle_timeout == fresh.idle_timeout,
        call_ensures(TcpPool::<T>::push, (p, stream, now), done),
        *old(q) == *final(p),
        call_ensures(TcpPool::<T>::take, (q, at), out),
        now.nanos <= at.nanos,
    ensures
        fresh.idle@.len() == 0,
        old(p).idle@.len() >= 4 ==> final(p).idle@ == old(p).idle@,
        old(p).idle@.len() < 4 && at.nanos - now.nanos < 30_000_000_000 ==> out == Some(stream),
        old(p).idle@.len() == 0 && at.nanos - now.nanos >= 30_000_000_000 ==> out is None,
{
    if old(p).idle@.len() < 4 {
        let all = old(q).idle@;
        let limit = old(q).idle_timeout;
        let pred = |x: (T, Instant)| crate::dns::client::reusable(x.1, at, limit);
        assert(all == old(p).idle@.push((stream, now)));
        assert(reusable_streams(all, at, limit) == all.filter(pred));
        reveal(Seq::filter);
        assert(all.drop_last() =~= old(p).idle@);
        assert(all.last() == (stream, now));
        if at.nanos - now.nanos < 30_000_000_000 {
            assert(pred(all.last()));
            assert(all.filter(pred) == all.drop_last().filter(pred).push(all.last()));
        } else if old(p).idle@.len() == 0 {
            assert(!pred(all.last()));
            assert(all.filter(pred) == all.drop_last().filter(pred));
            assert(all.drop_last().filter(pred).len() == 0);
        }
    }
}

/// A name's canonical form has the same labels in lower case, and is its own.
pub proof fn law_canonical_names(name: &DnsName, out: DnsName, again: DnsName)
    requires
        call_ensures(canonical_name, (name,), out),
        call_ensures(canonical_name, (&out,), again),
    ensures
        again@ == out@,
        out@.len() == name@.len(),
        forall|i: int| 0 <= i < name@.len() ==> (#[trigger] out@[i]).len() == name@[i].len(),
{
}

/// A record's address is the address in it: IPv4 in one kind, IPv6 in another,
/// and none in the others.
pub proof fn law_record_address(rec: &Record, ip: Option<IpAddr>)
    requires
        call_ensures(ip_from_record, (rec,), ip),
    ensures
        rec.data matches RecordData::A(a) ==> ip == Some(IpAddr::V4(a)),
        rec.data matches RecordData::Aaaa(a) ==> ip == Some(IpAddr::V6(a)),
        ip is Some <==> rec.data is A || rec.data is Aaaa,
{
}

proof fn lemma_lone_row(shards: Seq<Seq<(Seq<char>, Answer)>>, i: int, now: Instant)
    requires
        0 <= i < shards.len(),
        shards[i].len() == 1,
        forall|j: int| 0 <= j < shards.len() && j != i ==> (#[trigger] shards[j]).len() == 0,
    ensures
        cache::snapshot_rows(shards, now) == seq![cache::row_of(shards[i][0], now)],
    decreases shards.len(),
{
    let head = shards.drop_last();
    if i == shards.len() - 1 {
        lemma_no_rows(head, now);
        assert(cache::pair_rows(shards.last(), now) =~= seq![cache::row_of(shards[i][0], now)]);
        assert(cache::snapshot_rows(shards, now) =~= seq![cache::row_of(shards[i][0], now)]);
    } else {
        assert(head[i] == shards[i]);
        lemma_lone_row(head, i, now);
        assert(shards[shards.len() - 1].len() == 0);
        assert(cache::pair_rows(shards.last(), now) =~= Seq::empty());
        assert(cache::snapshot_rows(shards, now) =~= seq![cache::row_of(shards[i][0], now)]);
    }
}

proof fn lemma_no_rows(shards: Seq<Seq<(Seq<char>, Answer)>>, now: Instant)
    requires
        forall|j: int| 0 <= j < shards.len() ==> (#[trigger] shards[j]).len() == 0,
    ensures
        cache::snapshot_rows(shards, now) == Seq::<SnapshotRow>::empty(),
    decreases shards.len(),
{
    if shards.len() > 0 {
        lemma_no_rows(shards.drop_last(), now);
        assert(shards[shards.len() - 1].len() == 0);
        assert(cache::pair_rows(shards.last(), now) =~= Seq::empty());
        assert(cache::snapshot_rows(shards, now) =~= Seq::empty());
    }
}

proof fn lemma_names_keep_answers(
    m: cache::CacheModel,
    ips: Seq<IpAddr>,
    holder: lru_store::NameHolder,
)
    ensures
        m.keep_names(ips, holder).forward == m.forward,
        m.keep_names(ips, holder).fwd_cap == m.fwd_cap,
    decreases ips.len(),
{
    if ips.len() > 0 {
        lemma_names_keep_answers(m, ips.drop_last(), holder);
    }
}

/// A snapshot of a cache with one answer that still lives shows its name in
/// lower case, its addresses, where it came from and how long it still lives.
pub proof fn law_snapshot_of_one(
    capacity: usize,
    fresh: DnsCache,
    put_in: &mut DnsCache,
    shown: &mut DnsCache,
    domain: &str,
    ips: &[IpAddr],
    ttl: Duration,
    source: Option<&str>,
    now: Instant,
    at: Instant,
    done: (),
    out: Vec<DnsCacheSnapshotEntry>,
)
    requires
        call_ensures(DnsCache::new, (capacity,), fresh),
        *old(put_in) == fresh,
        call_ensures(DnsCache::put_with_source, (put_in, domain, ips, ttl, source, now), done),
        *old(shown) == *final(put_in),
        call_ensures(DnsCache::snapshot, (shown, at), out),
        now.nanos + ttl.nanos <= u128::MAX,
        at.nanos < now.nanos + ttl.nanos,
        ips@.len() > 0,
    ensures
        out@.len() == 1,
        out@[0].name@ == text::ascii_lower(domain@),
        out@[0].ips@ == ips@,
        out@[0].ttl.nanos == now.nanos + ttl.nanos - at.nanos,
        text::opt_text(out@[0].source) == (match source {
            Some(s) => Some(s@),
            None => None,
        }),
{
    let key = text::ascii_lower(domain@);
    let i = cache::shard_of(key);
    let m0 = fresh@;
    let holder = cache::holder_of(domain@, ttl, now);
    lemma_names_keep_answers(m0, ips@, holder);
    let expire = Instant { nanos: (now.nanos + ttl.nanos) as u128 };
    let a = Answer {
        ips: ips@,
        expire_v4: expire,
        expire_v6: expire,
        source: cache::str_of(source),
        queried: cache::families_of(ips@),
    };
    let m1 = final(put_in)@;
    assert(m0.forward[i].len() == 0);
    assert(lru_store::lru_without(m0.forward[i], key).len() == 0);
    assert(m1.forward[i] =~= seq![(key, a)]);
    assert forall|j: int| 0 <= j < m1.forward.len() && j != i implies (
    #[trigger] m1.forward[j]).len() == 0 by {
        assert(m0.forward[j].len() == 0);
    }
    assert(ips@[0] is V4 || ips@[0] is V6);
    assert(cache::live(a, at));
    let m2 = final(shown)@;
    let p = |x: (Seq<char>, Answer)| cache::live(x.1, at);
    reveal(Seq::filter);
    assert forall|j: int| 0 <= j < m2.forward.len() && j != i implies (
    #[trigger] m2.forward[j]).len() == 0 by {
        assert(m2.forward[j] == cache::live_pairs(m1.forward[j], at));
        assert(m1.forward[j].len() == 0);
        assert(m1.forward[j].filter(p).len() == 0);
    }
    assert(m2.forward[i] =~= seq![(key, a)]) by {
        let one = m1.forward[i];
        assert(m2.forward[i] == cache::live_pairs(one, at));
        assert(one.drop_last() =~= Seq::empty());
        assert(one.drop_last().filter(p) =~= Seq::empty());
        assert(p(one.last()));
        assert(one.filter(p) == one.drop_last().filter(p).push(one.last()));
    }
    lemma_lone_row(m2.forward, i, at);
    let row = cache::row_of((key, a), at);
    let entries = cache::entries_of(out@);
    let rows = cache::snapshot_rows(m2.forward, at);
    assert(rows == seq![row]);
    entries.to_multiset_ensures();
    rows.to_multiset_ensures();
    assert(entries.len() == 1);
    assert(entries.contains(entries[0]));
    vstd::seq_lib::to_multiset_contains(entries, entries[0]);
    vstd::seq_lib::to_multiset_contains(rows, entries[0]);
    assert(rows.contains(entries[0]));
    assert(entries[0] == row);
    assert(entries[0] == out@[0]@);
}

} // verus!
