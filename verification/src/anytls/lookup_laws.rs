//! What holds of every cached host and every configured DNS server.
use crate::anytls::dns_cache;
use crate::anytls::dns_cache::{
    choose_resolver, finish_lookup, parse_dns_server, parse_dns_servers, set_custom_dns_servers,
    start_lookup, DnsCache, LookupFailure, LookupStep, ResolverChoice, ServerProtocol,
};
use crate::anytls::error::AnyTlsError;
use crate::anytls::socket_protect::{dial_way, split_host_port, Candidates, DialWay};
use crate::clock::Instant;
use crate::io_error::IoError;
use crate::net;
use crate::net::{IpAddr, SocketAddr};
use crate::text;
use crate::text_laws;
use crate::text_laws::{all_blank, visible};
use vstd::prelude::*;

verus! {

/// Addresses that were kept are handed out for sixty seconds, the first one
/// first, and no longer. Other hosts are not touched.
pub proof fn law_kept_for_a_minute(
    cache: &mut DnsCache,
    after: DnsCache,
    host: &str,
    addresses: Vec<SocketAddr>,
    now: Instant,
    later: Instant,
    done: (),
    got: Option<SocketAddr>,
    other: &str,
    before_other: Option<SocketAddr>,
    after_other: Option<SocketAddr>,
)
    requires
        call_ensures(DnsCache::insert, (cache, host, addresses, now), done),
        after == *final(cache),
        call_ensures(DnsCache::get, (&after, host, later), got),
        call_ensures(DnsCache::get, (&*old(cache), other, later), before_other),
        call_ensures(DnsCache::get, (&after, other, later), after_other),
        other@ != host@,
        now.nanos + 60_000_000_000 <= u128::MAX,
    ensures
        addresses@.len() > 0 && later.nanos <= now.nanos + 60_000_000_000 ==> got == Some(
            addresses@[0],
        ),
        addresses@.len() == 0 || later.nanos > now.nanos + 60_000_000_000 ==> got is None,
        after_other == before_other,
{
    assert(after.entry(host@) is Some);
    assert(after.entry(other@) == old(cache).entry(other@));
    if addresses@.len() > 0 {
        vstd::arithmetic::div_mod::lemma_small_mod(0, addresses@.len());
    }
}

/// A host that has just been resolved hands out its addresses in turn: the
/// first, then the second, or the first again where it has no second.
pub proof fn law_turn_by_turn(
    cache: &mut DnsCache,
    first: &mut DnsCache,
    second: &mut DnsCache,
    host: &str,
    addresses: Vec<SocketAddr>,
    port: u16,
    now: Instant,
    later: Instant,
    done: (),
    one: LookupStep,
    two: LookupStep,
)
    requires
        call_ensures(DnsCache::insert, (cache, host, addresses, now), done),
        *old(first) == *final(cache),
        call_ensures(start_lookup, (first, host, port, later), one),
        *old(second) == *final(first),
        call_ensures(start_lookup, (second, host, port, later), two),
        net::ip_of_text(host@) is None,
        addresses@.len() > 0,
        now.nanos + 60_000_000_000 <= u128::MAX,
        later.nanos <= now.nanos + 60_000_000_000,
    ensures
        one == LookupStep::Ready(addresses@[0]),
        two == LookupStep::Ready(
            if addresses@.len() > 1 {
                addresses@[1]
            } else {
                addresses@[0]
            },
        ),
{
    let n = addresses@.len();
    assert(old(first).entry(host@) is Some);
    vstd::arithmetic::div_mod::lemma_small_mod(0, n);
    assert(final(first).entry(host@) is Some);
    if n > 1 {
        vstd::arithmetic::div_mod::lemma_small_mod(1, n);
    } else {
        assert(1int % 1int == 0);
    }
}

/// Each use of a cached host hands out the address whose turn it is, and the
/// turn moves on by one; what is kept stays otherwise as it is.
pub proof fn law_turn_moves_on(
    cache: &mut DnsCache,
    host: &str,
    port: u16,
    now: Instant,
    step: LookupStep,
    e: dns_cache::EntryModel,
)
    requires
        call_ensures(start_lookup, (cache, host, port, now), step),
        net::ip_of_text(host@) is None,
        old(cache).entry(host@) == Some(e),
    ensures
        e.addresses.len() > 0 && now.nanos <= e.expires_at.nanos ==> {
            &&& step == LookupStep::Ready(
                e.addresses[e.next_index as int % e.addresses.len() as int],
            )
            &&& final(cache).entry(host@) matches Some(f) && f.addresses == e.addresses
                && f.expires_at == e.expires_at && f.next_index == (if e.next_index
                == usize::MAX {
                0int
            } else {
                e.next_index + 1
            })
        },
        e.addresses.len() == 0 || now.nanos > e.expires_at.nanos ==> step is Ask && *final(cache)
            == *old(cache),
{
}

/// A host that is an address needs no resolver and no cache.
pub proof fn law_literal_is_ready(
    cache: &mut DnsCache,
    host: &str,
    port: u16,
    now: Instant,
    step: LookupStep,
    ip: IpAddr,
)
    requires
        call_ensures(start_lookup, (cache, host, port, now), step),
        net::ip_of_text(host@) == Some(ip),
    ensures
        step matches LookupStep::Ready(a) && a.ip == ip && a.port == port && a.scope_id == 0,
        *final(cache) == *old(cache),
{
}

/// Whether an address comes first: IPv4 before IPv6, then the smaller number.
pub open spec fn no_later(a: IpAddr, b: IpAddr) -> bool {
    match (a, b) {
        (IpAddr::V4(x), IpAddr::V4(y)) => x <= y,
        (IpAddr::V4(_), IpAddr::V6(_)) => true,
        (IpAddr::V6(_), IpAddr::V4(_)) => false,
        (IpAddr::V6(x), IpAddr::V6(y)) => x <= y,
    }
}

/// Of the addresses that a resolver found, the one that comes first is used,
/// and all of them are kept, in order, for sixty seconds.
pub proof fn law_first_address_is_used(
    cache: &mut DnsCache,
    host: &str,
    addrs: Vec<SocketAddr>,
    now: Instant,
    r: Result<SocketAddr, AnyTlsError>,
)
    requires
        call_ensures(
            finish_lookup,
            (cache, host, Ok::<Vec<SocketAddr>, LookupFailure>(addrs), now),
            r,
        ),
        addrs@.len() > 0,
    ensures
        r matches Ok(a) && addrs@.contains(a) && forall|i: int|
            0 <= i < addrs@.len() ==> no_later(a.ip, (#[trigger] addrs@[i]).ip),
        final(cache).entry(host@) matches Some(e) && {
            &&& e.expires_at.nanos == now.nanos + 60_000_000_000
            &&& e.addresses.to_multiset() == addrs@.to_multiset()
            &&& forall|i: int, j: int|
                0 <= i < j < e.addresses.len() ==> no_later(e.addresses[i].ip, e.addresses[j].ip)
        },
{
    let e = final(cache).entry(host@)->0;
    let s = e.addresses;
    assert forall|i: int, j: int| 0 <= i < j < s.len() implies no_later(s[i].ip, s[j].ip) by {
        assert(!net::ip_before(s[j].ip, s[i].ip));
    }
    let a = s[0];
    assert(s.contains(s[0]));
    vstd::seq_lib::to_multiset_contains(s, a);
    vstd::seq_lib::to_multiset_contains(addrs@, a);
    assert forall|i: int| 0 <= i < addrs@.len() implies no_later(
        a.ip,
        (#[trigger] addrs@[i]).ip,
    ) by {
        assert(addrs@.contains(addrs@[i]));
        vstd::seq_lib::to_multiset_contains(addrs@, addrs@[i]);
        vstd::seq_lib::to_multiset_contains(s, addrs@[i]);
        let k = choose|k: int| 0 <= k < s.len() && s[k] == addrs@[i];
        if k > 0 {
            assert(no_later(s[0].ip, s[k].ip));
        }
    }
}

/// A configured server is read without the white space around it. With a port
/// it is taken as it stands; without one its port is 53, in brackets or not.
pub proof fn law_server_is_read(
    entry: &str,
    front: Seq<char>,
    t: Seq<char>,
    back: Seq<char>,
    r: Result<SocketAddr, IoError>,
)
    requires
        call_ensures(parse_dns_server, (entry,), r),
        entry@ == front + t + back,
        all_blank(front),
        all_blank(back),
        t.len() > 0,
        visible(t[0]),
        visible(t.last()),
    ensures
        net::socket_of_text(t) matches Some(p) ==> (r matches Ok(a) && a.ip == p.0 && a.port == p.1
            && (!t.contains('%') ==> a.scope_id == 0)),
        net::socket_of_text(t) is None && net::ip_of_text(t) is Some ==> r == Ok::<
            SocketAddr,
            IoError,
        >(SocketAddr { ip: net::ip_of_text(t)->0, port: 53, scope_id: 0 }),
        forall|inner: Seq<char>|
            net::socket_of_text(t) is None && net::ip_of_text(t) is None && t == seq!['[']
                + inner + seq![']'] && (#[trigger] net::ip_of_text(inner)) is Some ==> r == Ok::<
                SocketAddr,
                IoError,
            >(SocketAddr { ip: net::ip_of_text(inner)->0, port: 53, scope_id: 0 }),
        net::socket_of_text(t) is None && net::ip_of_text(t) is None && (t[0] != '[' || t.last()
            != ']') ==> (r matches Err(e) && e.kind is InvalidInput),
{
    text_laws::lemma_trimmed(front, t, back);
    text::lemma_first_of(t, '%');
    assert forall|inner: Seq<char>|
        net::socket_of_text(t) is None && net::ip_of_text(t) is None && t == seq!['['] + inner
            + seq![']'] && (#[trigger] net::ip_of_text(inner)) is Some implies r == Ok::<
        SocketAddr,
        IoError,
    >(SocketAddr { ip: net::ip_of_text(inner)->0, port: 53, scope_id: 0 }) by {
        assert(t.subrange(1, t.len() - 1) =~= inner);
    }
}

/// The number behind a percent sign is the scope of a server's address.
pub proof fn law_server_scope(
    entry: &str,
    host: Seq<char>,
    scope: u32,
    rest: Seq<char>,
    t: Seq<char>,
    r: Result<SocketAddr, IoError>,
)
    requires
        call_ensures(parse_dns_server, (entry,), r),
        entry@ == t,
        t == seq!['['] + host + seq!['%'] + text::decimal(scope as nat) + seq![']'] + rest,
        !host.contains('%'),
        visible(t.last()),
        net::socket_of_text(t) is Some,
    ensures
        r matches Ok(a) && a.scope_id == scope,
{
    let front = seq!['['] + host;
    let digits = text::decimal(scope as nat);
    let behind = digits + seq![']'] + rest;
    text_laws::lemma_trim_visible(t);
    assert forall|i: int| 0 <= i < front.len() implies #[trigger] t[i] != '%' by {
        assert(t[i] == front[i]);
        if i > 0 {
            assert(front[i] == host[i - 1]);
            assert(host.contains(host[i - 1]));
        }
    }
    assert(t[front.len() as int] == '%');
    text::lemma_first_of_is(t, '%', front.len() as int);
    assert(t.skip(front.len() as int + 1) =~= behind);
    text_laws::law_decimal(scope as nat);
    assert forall|i: int| 0 <= i < digits.len() implies #[trigger] behind[i] != ']' by {
        assert(behind[i] == digits[i]);
        assert(0x30 <= digits[i] as int <= 0x39);
    }
    assert(behind[digits.len() as int] == ']');
    text::lemma_first_of_is(behind, ']', digits.len() as int);
    assert(behind.take(digits.len() as int) =~= digits);
    text_laws::lemma_decimal_read(scope as nat, u32::MAX as nat);
}

/// An entry of white space alone is no server.
pub proof fn law_no_server(entry: &str, r: Result<SocketAddr, IoError>)
    requires
        call_ensures(parse_dns_server, (entry,), r),
        all_blank(entry@),
    ensures
        r matches Err(e) && e.kind is InvalidInput && e.message@ == "DNS server address is empty"@,
{
    text_laws::lemma_trimmed(entry@, Seq::empty(), Seq::empty());
    assert(entry@ + Seq::<char>::empty() + Seq::<char>::empty() =~= entry@);
}

/// Where a host and a port are written with a colon between them, they are read
/// from both sides of the last colon, the host without its brackets.
pub proof fn law_address_is_split(
    addr: &str,
    host: Seq<char>,
    port: u16,
    out: Option<(String, u16)>,
    direct: DialWay,
    dialed: DialWay,
)
    requires
        call_ensures(split_host_port, (addr,), out),
        call_ensures(dial_way, (addr, false), direct),
        call_ensures(dial_way, (addr, true), dialed),
        host.len() > 0,
        host[0] != '[' || host.last() != ']' || host.len() == 1,
        addr@ == host + seq![':'] + text::decimal(port as nat) || addr@ == seq!['['] + host + seq![
            ']',
        ] + seq![':'] + text::decimal(port as nat),
    ensures
        out matches Some(p) && p.0@ == host && p.1 == port,
        direct is Direct,
        dialed matches DialWay::Dialer { host: h, port: p } && h@ == host && p == port,
{
    let digits = text::decimal(port as nat);
    text_laws::law_decimal(port as nat);
    assert(!digits.contains(':')) by {
        if digits.contains(':') {
            let i = choose|i: int| 0 <= i < digits.len() && digits[i] == ':';
            assert(0x30 <= digits[i] as int <= 0x39);
        }
    }
    text_laws::lemma_decimal_read(port as nat, 0xffff);
    let front = if addr@ == host + seq![':'] + digits {
        host
    } else {
        seq!['['] + host + seq![']']
    };
    text_laws::lemma_last_of(front, ':', digits);
    assert(addr@ =~= front + seq![':'] + digits);
    assert(addr@.take(front.len() as int) =~= front);
    assert(addr@.skip(front.len() as int + 1) =~= digits);
    if front != host {
        assert(front.subrange(1, front.len() - 1) =~= host);
    }
}

/// Without a colon, or with nothing in front of it, there is no host and port,
/// and the address is dialled as it is.
pub proof fn law_no_host_and_port(addr: &str, out: Option<(String, u16)>, way: DialWay, d: bool)
    requires
        call_ensures(split_host_port, (addr,), out),
        call_ensures(dial_way, (addr, d), way),
        !addr@.contains(':') || exists|rest: Seq<char>|
            addr@ == seq![':'] + rest && !rest.contains(':'),
    ensures
        out is None,
        way is Direct,
{
    if !addr@.contains(':') {
        text_laws::lemma_last_of_none(addr@, ':');
    } else {
        let rest = choose|rest: Seq<char>| addr@ == seq![':'] + rest && !rest.contains(':');
        text_laws::lemma_last_of(Seq::empty(), ':', rest);
        assert(Seq::<char>::empty() + seq![':'] + rest =~= addr@);
        assert(addr@.take(0) =~= Seq::empty());
    }
}

/// Servers are read one by one, in their order; one that cannot be read makes
/// the whole list unreadable.
pub proof fn law_servers_are_read(
    servers: &Vec<String>,
    i: int,
    entry: &str,
    alone: Result<SocketAddr, IoError>,
    r: Result<Vec<SocketAddr>, AnyTlsError>,
)
    requires
        call_ensures(parse_dns_servers, (servers,), r),
        0 <= i < servers@.len(),
        entry@ == servers@[i]@,
        call_ensures(parse_dns_server, (entry,), alone),
    ensures
        r matches Ok(a) ==> a@.len() == servers@.len() && alone == Ok::<SocketAddr, IoError>(a@[i]),
        alone is Err ==> r is Err,
        r matches Err(e) ==> e is Config,
        servers@.len() == 1 && alone is Ok ==> r is Ok,
{
    if r is Ok {
        assert(dns_cache::is_server(servers@[i]@));
    }
    if servers@.len() == 1 && r is Err {
        let j = choose|j: int|
            0 <= j < servers@.len() && !dns_cache::is_server((#[trigger] servers@[j])@);
        assert(j == i);
    }
}

/// Servers of one's own are each asked over UDP and then over TCP, in their
/// order; without one the system is asked. Either way nothing that was kept
/// before is used again.
pub proof fn law_resolver_is_chosen(
    cache: &mut DnsCache,
    after: DnsCache,
    servers: &Vec<SocketAddr>,
    host: &str,
    now: Instant,
    choice: ResolverChoice,
    got: Option<SocketAddr>,
)
    requires
        call_ensures(choose_resolver, (cache, servers), choice),
        after == *final(cache),
        call_ensures(DnsCache::get, (&after, host, now), got),
    ensures
        servers@.len() == 0 <==> choice is System,
        choice matches ResolverChoice::Custom(list) ==> list@.len() == 2 * servers@.len() && forall|
            i: int,
        |
            0 <= i < servers@.len() ==> list@[2 * i] == (
                #[trigger] servers@[i],
                ServerProtocol::Udp,
            ) && list@[2 * i + 1] == (servers@[i], ServerProtocol::Tcp),
        got is None,
{
    assert(after.entry(host@) is None);
    if choice is Custom {
        assert(dns_cache::asks_both_ways(choice->Custom_0@, servers@));
    }
}

/// Setting servers reads them and then chooses; where one cannot be read,
/// nothing changes.
pub proof fn law_servers_are_set(
    cache: &mut DnsCache,
    servers: &Vec<String>,
    read: Result<Vec<SocketAddr>, AnyTlsError>,
    r: Result<ResolverChoice, AnyTlsError>,
)
    requires
        call_ensures(set_custom_dns_servers, (cache, servers), r),
        call_ensures(parse_dns_servers, (servers,), read),
    ensures
        r is Ok <==> read is Ok,
        r is Err ==> *final(cache) == *old(cache),
        r is Ok ==> (servers@.len() == 0 <==> r->Ok_0 is System),
        r matches Ok(ResolverChoice::Custom(list)) ==> list@.len() == 2 * servers@.len() && forall|
            i: int,
        |
            0 <= i < servers@.len() ==> list@[2 * i] == (
                #[trigger] read->Ok_0@[i],
                ServerProtocol::Udp,
            ) && list@[2 * i + 1] == (read->Ok_0@[i], ServerProtocol::Tcp),
{
    if r is Ok && read is Err {
        let j = choose|j: int|
            0 <= j < servers@.len() && !dns_cache::is_server((#[trigger] servers@[j])@);
        assert(dns_cache::is_server(servers@[j]@));
    }
    if r is Err && read is Ok {
        let j = choose|j: int|
            0 <= j < servers@.len() && !dns_cache::is_server((#[trigger] servers@[j])@);
        assert(dns_cache::is_server(servers@[j]@));
    }
    if r is Ok && r->Ok_0 is Custom {
        let list = r->Ok_0->Custom_0;
        let addrs = servers@.map_values(|s: String| dns_cache::dns_server_of(s@)->0);
        assert forall|i: int| 0 <= i < servers@.len() implies list@[2 * i] == (
            #[trigger] read->Ok_0@[i],
            ServerProtocol::Udp,
        ) && list@[2 * i + 1] == (read->Ok_0@[i], ServerProtocol::Tcp) by {
            assert(dns_cache::is_server(servers@[i]@));
            assert(addrs[i] == read->Ok_0@[i]);
        }
    }
}

/// Candidates are tried in their order until one works; when none did, the
/// last failure is the reason, and without a candidate it is the given one.
pub proof fn law_candidates(
    addrs: Vec<SocketAddr>,
    fresh: Candidates,
    c: &mut Candidates,
    after: Candidates,
    e: IoError,
    none: &str,
    done: (),
    first: Option<SocketAddr>,
    next: Option<SocketAddr>,
    why: IoError,
)
    requires
        call_ensures(Candidates::new, (addrs,), fresh),
        call_ensures(Candidates::next, (&fresh,), first),
        *old(c) == fresh,
        call_ensures(Candidates::failed, (c, e), done),
        after == *final(c),
        call_ensures(Candidates::next, (&after,), next),
        addrs@.len() == 1 ==> call_ensures(Candidates::into_error, (after, none), why),
        addrs@.len() > 0,
    ensures
        first == Some(addrs@[0]),
        addrs@.len() > 1 ==> next == Some(addrs@[1]),
        addrs@.len() == 1 ==> next is None && why == e,
{
}

} // verus!
