//! What holds of every query and of every response to one.
use crate::clock::{Duration, Instant};
use crate::dns::answer_laws::same;
use crate::dns::answers;
use crate::dns::answers::relevant_ip_answers;
use crate::dns::client::{
    check_family_query, classify_family_message, doh_request, doh_response, dual_stack_result,
    family_lookup_result, ipv4_only_result, judge_datagram, local_bind_ip, negative_ttl,
    plan_lookup_set, pooled_budget, read_bounded_http_response, read_lp, reusable_streams,
    single_family_set, soa_ttl, socket_label, take_fresh, validate_response, write_lp, ClientError,
    DatagramStep, DnsClient, ExpectedResponse, FamilyAnswer, FamilyLookupResult, FamilySet,
    IpLookupResult, QueryStep, Route, TcpOutcome, TcpPool, Transport,
};
use crate::dns::families::QueryFamilies;
use crate::dns::message;
use crate::dns::message::{decode_message, Authority, DnsMessage, MessageType, ResponseCode};
use crate::net;
use crate::net::{IpAddr, SocketAddr};
use crate::octets;
use crate::text;
use crate::text_laws;
use vstd::prelude::*;
use vstd::utf8::encode_utf8;

verus! {

/// A response is taken exactly where it belongs to the query: it has its
/// transaction ID, is a response to a standard query, and repeats the one
/// question, up to the case of its name.
pub proof fn law_only_own_response(
    response: &DnsMessage,
    expected: &ExpectedResponse,
    r: Result<(), ClientError>,
)
    requires
        call_ensures(validate_response, (response, expected), r),
    ensures
        r is Ok <==> {
            &&& response.id == expected.id
            &&& response.message_type is Response
            &&& response.op_code == 0
            &&& response.queries@.len() == 1
            &&& same(response.queries@[0].name@, expected.query.name@)
            &&& response.queries@[0].query_type == expected.query.query_type
            &&& response.queries@[0].query_class == expected.query.query_class
        },
{
    if response.queries@.len() == 1 {
        crate::dns::answer_laws::lemma_same(
            response.queries@[0].name@,
            expected.query.name@,
        );
        assert(response@.queries[0] == response.queries@[0]@);
    }
}

/// A datagram ends the wait exactly where it is a response to the query; a
/// truncated one is asked for again over TCP, and any other datagram is passed
/// over.
pub proof fn law_datagram(
    wire: &[u8],
    expected: &ExpectedResponse,
    step: DatagramStep,
    decoded: Result<DnsMessage, String>,
    valid: Result<(), ClientError>,
)
    requires
        call_ensures(judge_datagram, (wire, expected), step),
        call_ensures(decode_message, (wire,), decoded),
        decoded matches Ok(m) ==> call_ensures(validate_response, (&m, expected), valid),
    ensures
        decoded is Err ==> step is Ignore,
        decoded is Ok && valid is Err ==> step is Ignore,
        decoded matches Ok(m) ==> valid is Ok && m.truncation ==> step is RetryOverTcp,
        decoded matches Ok(m) ==> valid is Ok && !m.truncation ==> (
        step matches DatagramStep::Done(d) && d@ == m@),
{
}

/// Whether a number of seconds is the least that a start-of-authority record
/// allows: its life, or its minimum field where that is less.
pub open spec fn allows(r: Authority, secs: int) -> bool {
    r.soa_minimum matches Some(minimum) && secs == if r.ttl <= minimum {
        r.ttl as int
    } else {
        minimum as int
    }
}

proof fn lemma_soa(all: Seq<Authority>)
    ensures
        match soa_ttl(all) {
            None => forall|i: int| 0 <= i < all.len() ==> (#[trigger] all[i]).soa_minimum is None,
            Some(x) => (exists|i: int| 0 <= i < all.len() && allows(#[trigger] all[i], x as int))
                && forall|i: int, n: int|
                0 <= i < all.len() && #[trigger] allows(all[i], n) ==> x <= n,
        },
    decreases all.len(),
{
    if all.len() > 0 {
        let head = all.drop_last();
        let r = all.last();
        lemma_soa(head);
        assert forall|i: int| 0 <= i < head.len() implies #[trigger] all[i] == head[i] by {}
        assert(all[all.len() - 1] == r);
        match soa_ttl(all) {
            None => {
                assert forall|i: int| 0 <= i < all.len() implies (
                #[trigger] all[i]).soa_minimum is None by {
                    if i < head.len() {
                        assert(head[i].soa_minimum is None);
                    }
                }
            },
            Some(x) => {
                if soa_ttl(head) == Some(x) {
                    let i = choose|i: int| 0 <= i < head.len() && allows(#[trigger] head[i], x as int);
                    assert(allows(all[i], x as int));
                } else {
                    assert(allows(all[all.len() - 1], x as int));
                }
                assert forall|i: int, n: int|
                    0 <= i < all.len() && #[trigger] allows(all[i], n) implies x <= n by {
                    if i < head.len() {
                        assert(allows(head[i], n));
                    }
                }
            },
        }
    }
}

/// A negative answer is kept for the least number of seconds that one of its
/// start-of-authority records allows, and not at all without such a record.
pub proof fn law_negative_life(message: &DnsMessage, ttl: Duration)
    requires
        call_ensures(negative_ttl, (message,), ttl),
    ensures
        (forall|i: int|
            0 <= i < message.authorities@.len() ==> (
            #[trigger] message.authorities@[i]).soa_minimum is None) ==> ttl.nanos == 0,
        forall|i: int, n: int|
            0 <= i < message.authorities@.len() && #[trigger] allows(message.authorities@[i], n)
                ==> ttl.nanos <= n * 1_000_000_000,
        (exists|i: int|
            0 <= i < message.authorities@.len() && (
            #[trigger] message.authorities@[i]).soa_minimum is Some) ==> exists|i: int, n: int|
            0 <= i < message.authorities@.len() && #[trigger] allows(message.authorities@[i], n)
                && ttl.nanos == n * 1_000_000_000,
{
    let all = message.authorities@;
    lemma_soa(all);
    match soa_ttl(all) {
        Some(x) => {
            let i = choose|i: int| 0 <= i < all.len() && allows(#[trigger] all[i], x as int);
            assert(allows(message.authorities@[i], x as int));
        },
        None => {},
    }
}

/// A successful response is the addresses that it holds for the question, kept
/// for their life in seconds, or that there are none, kept as its authority
/// allows; code 3 means that the name does not exist; any other code says
/// nothing.
pub proof fn law_response_means(
    message: &DnsMessage,
    a: FamilyAnswer,
    found: (Vec<IpAddr>, Option<u32>),
    negative: Duration,
)
    requires
        call_ensures(classify_family_message, (message,), a),
        call_ensures(relevant_ip_answers, (message,), found),
        call_ensures(negative_ttl, (message,), negative),
    ensures
        message.response_code == ResponseCode::Number(0) && found.0@.len() > 0 ==> (
        a matches FamilyAnswer::Answer { ips, ttl } && ips@ == found.0@ && (found.1 matches Some(
            n,
        ) ==> ttl.nanos == n * 1_000_000_000)),
        message.response_code == ResponseCode::Number(0) && found.0@.len() == 0 ==> (
        a matches FamilyAnswer::NoData(ttl) && ttl == negative),
        message.response_code == ResponseCode::Number(3) ==> (a matches FamilyAnswer::NxDomain(ttl)
            && ttl == negative),
        message.response_code != ResponseCode::Number(0) && message.response_code
            != ResponseCode::Number(3) ==> a is Failed,
{
}

/// A lookup of one family hands out what its response means.
pub proof fn law_family_lookup(
    message: &DnsMessage,
    r: Result<FamilyLookupResult, ClientError>,
    a: FamilyAnswer,
)
    requires
        call_ensures(family_lookup_result, (message,), r),
        call_ensures(classify_family_message, (message,), a),
    ensures
        match a {
            FamilyAnswer::Answer { ips, ttl } => r matches Ok(FamilyLookupResult::Response(l))
                && l.ips@ == ips@ && l.ttl == ttl,
            FamilyAnswer::NoData(ttl) => r matches Ok(FamilyLookupResult::Response(l))
                && l.ips@.len() == 0 && l.ttl == ttl,
            FamilyAnswer::NxDomain(ttl) => r matches Ok(FamilyLookupResult::NxDomain(t)) && t == ttl,
            FamilyAnswer::Failed => r == Err::<FamilyLookupResult, ClientError>(
                ClientError::Rcode(message.response_code),
            ),
        },
{
}

/// A lookup of IPv4 alone hands out the addresses of its response.
pub proof fn law_ipv4_lookup(
    response: &DnsMessage,
    r: Result<IpLookupResult, ClientError>,
    a: FamilyAnswer,
)
    requires
        call_ensures(ipv4_only_result, (response,), r),
        call_ensures(classify_family_message, (response,), a),
    ensures
        a is Failed <==> r is Err,
        a matches FamilyAnswer::Answer { ips, ttl } ==> r->Ok_0.ips@ == ips@ && r->Ok_0.ttl == ttl,
        a matches FamilyAnswer::NoData(ttl) ==> r->Ok_0.ips@.len() == 0 && r->Ok_0.ttl == ttl,
        a matches FamilyAnswer::NxDomain(ttl) ==> r->Ok_0.ips@.len() == 0 && r->Ok_0.ttl == ttl,
        r matches Ok(l) ==> l.v4 is Some && l.v4->0@ == a@ && l.v6 is None,
{
}

/// A lookup of both families hands out the addresses of both responses, IPv4
/// first, for the shorter of their lives; one response is enough. A name that
/// does not exist for IPv4 does not exist.
pub proof fn law_dual_lookup(
    one: DnsMessage,
    two: DnsMessage,
    both: Result<IpLookupResult, ClientError>,
    first: Result<IpLookupResult, ClientError>,
    second: Result<IpLookupResult, ClientError>,
    none: Result<IpLookupResult, ClientError>,
    a: FamilyAnswer,
    b: FamilyAnswer,
)
    requires
        call_ensures(dual_stack_result, (Some(one), Some(two)), both),
        call_ensures(dual_stack_result, (Some(one), None), first),
        call_ensures(dual_stack_result, (None, Some(two)), second),
        call_ensures(dual_stack_result, (None::<DnsMessage>, None::<DnsMessage>), none),
        call_ensures(classify_family_message, (&one,), a),
        call_ensures(classify_family_message, (&two,), b),
    ensures
        none is Err,
        both is Ok && first is Ok && second is Ok,
        a matches FamilyAnswer::NxDomain(ttl) ==> both->Ok_0.ips@.len() == 0 && both->Ok_0.ttl == ttl
            && (both->Ok_0.v6 matches Some(v6) && v6 is NxDomain),
        a matches FamilyAnswer::Answer { ips: x, ttl: t } ==> {
            &&& first->Ok_0.ips@ == x@ && first->Ok_0.ttl == t
            &&& b matches FamilyAnswer::Answer { ips: y, ttl: u } ==> both->Ok_0.ips@ == x@ + y@
                && both->Ok_0.ttl.nanos == if t.nanos <= u.nanos {
                t.nanos
            } else {
                u.nanos
            }
            &&& !(b is Answer) ==> both->Ok_0.ips@ == x@ && both->Ok_0.ttl == t
        },
        b matches FamilyAnswer::Answer { ips: y, ttl: u } ==> {
            &&& second->Ok_0.ips@ == y@ && second->Ok_0.ttl == u
            &&& a is NoData || a is Failed ==> both->Ok_0.ips@ == y@ && both->Ok_0.ttl == u
        },
        both->Ok_0.v4 is Some && both->Ok_0.v4->0@ == a@,
        !(a is NxDomain) ==> both->Ok_0.v6 is Some && both->Ok_0.v6->0@ == b@,
{
    let none_ips = Seq::<IpAddr>::empty();
    match a {
        FamilyAnswer::Answer { ips, ttl } => {
            assert(ips@ + none_ips =~= ips@);
        },
        _ => {},
    }
    match b {
        FamilyAnswer::Answer { ips, ttl } => {
            assert(none_ips + ips@ =~= ips@);
        },
        _ => {},
    }
}

/// Record type 1 asks for IPv4, 28 for IPv6, and no other for an address.
pub proof fn law_address_types(record_type: u16, r: Result<QueryFamilies, ClientError>)
    requires
        call_ensures(check_family_query, (record_type,), r),
    ensures
        record_type == 1 ==> r == Ok::<QueryFamilies, ClientError>(QueryFamilies::IPV4),
        record_type == 28 ==> r == Ok::<QueryFamilies, ClientError>(QueryFamilies::IPV6),
        record_type != 1 && record_type != 28 ==> r is Err,
{
}

/// A lookup of one family asks for its record type alone, one of both for both.
pub proof fn law_lookup_plan(want: QueryFamilies, r: Result<Option<u16>, ClientError>)
    requires
        call_ensures(plan_lookup_set, (want,), r),
    ensures
        want is IPV4 ==> r == Ok::<Option<u16>, ClientError>(Some(1u16)),
        want is IPV6 ==> r == Ok::<Option<u16>, ClientError>(Some(28u16)),
        want is BOTH ==> r == Ok::<Option<u16>, ClientError>(None),
        want is NONE ==> r is Err,
{
}

/// The outcome of a lookup of one family is that family's, and the other one has
/// none.
pub proof fn law_single_family(
    family: QueryFamilies,
    lookup: Result<FamilyLookupResult, ClientError>,
    source: String,
    set: FamilySet,
)
    requires
        call_ensures(single_family_set, (family, lookup, source), set),
        family is IPV4 || family is IPV6,
    ensures
        set.source@ == source@,
        family is IPV4 ==> set.v4 is Some && set.v6 is None,
        family is IPV6 ==> set.v6 is Some && set.v4 is None,
        ({
            let asked = if family is IPV4 {
                set.v4->0
            } else {
                set.v6->0
            };
            match lookup {
                Err(_) => asked is Failed,
                Ok(FamilyLookupResult::NxDomain(t)) => asked == FamilyAnswer::NxDomain(t),
                Ok(FamilyLookupResult::Response(l)) => if l.ips@.len() > 0 {
                    asked matches FamilyAnswer::Answer { ips, ttl } && ips@ == l.ips@ && ttl == l.ttl
                } else {
                    asked == FamilyAnswer::NoData(l.ttl)
                },
            }
        }),
{
}

/// A loopback upstream is asked from the loopback address of its family.
pub proof fn law_local_bind(upstream: SocketAddr, ip: Option<IpAddr>)
    requires
        call_ensures(local_bind_ip, (upstream,), ip),
    ensures
        upstream.ip matches IpAddr::V4(x) ==> (if 0x7f00_0000 <= x <= 0x7fff_ffff {
            ip == Some(IpAddr::V4(0x7f00_0001))
        } else {
            ip is None
        }),
        upstream.ip matches IpAddr::V6(x) ==> (if x == 1 {
            ip == Some(IpAddr::V6(1))
        } else {
            ip is None
        }),
{
}

/// An upstream's label leaves its usual port out and writes any other.
pub proof fn law_socket_label(addr: SocketAddr, usual: u16, out: String)
    requires
        call_ensures(socket_label, (addr, usual), out),
    ensures
        addr.port == usual ==> out@ == net::ip_text(addr.ip),
        addr.port != usual && addr.ip is V4 ==> out@ == net::ip_text(addr.ip) + seq![':']
            + text::decimal(addr.port as nat),
        addr.port != usual && addr.ip is V6 && addr.scope_id == 0 ==> out@ == seq!['[']
            + net::ip_text(addr.ip) + seq![']'] + seq![':'] + text::decimal(addr.port as nat),
{
    assert(seq!['['] + net::ip_text(addr.ip) + Seq::<char>::empty() + seq![']'] =~= seq!['[']
        + net::ip_text(addr.ip) + seq![']']);
}

/// The label of a client: the given one, or the scheme of its transport and the
/// server; a proxied client is marked.
pub proof fn law_client_label(c: &DnsClient, out: String, plain: String)
    requires
        call_ensures(DnsClient::upstream_label, (c,), out),
    ensures
        c.label matches Some(l) ==> out@ == l@ + if c.proxy is Some {
            "#PROXY"@
        } else {
            Seq::empty()
        },
        c.label is None && c.proxy is None ==> {
            &&& c.transport matches Transport::Udp { addr } ==> call_ensures(
                socket_label,
                (addr, 53u16),
                plain,
            ) ==> out@ == plain@
            &&& c.transport matches Transport::Tcp { addr } ==> call_ensures(
                socket_label,
                (addr, 53u16),
                plain,
            ) ==> out@ == plain@
            &&& c.transport matches Transport::Dot { addr, sni } ==> sni@.len() > 0 ==> out@
                == "tls://"@ + sni@ + if addr.port == 853 {
                Seq::empty()
            } else {
                seq![':'] + text::decimal(addr.port as nat)
            }
            &&& c.transport matches Transport::Doh { addr, sni, path } ==> sni@.len() > 0 ==> out@
                == "https://"@ + sni@ + (if addr.port == 443 {
                Seq::empty()
            } else {
                seq![':'] + text::decimal(addr.port as nat)
            }) + if path@ == "/dns-query"@ {
                Seq::empty()
            } else {
                path@
            }
        },
{
    let none = Seq::<char>::empty();
    match c.transport {
        Transport::Udp { addr } => {
            assert(plain@ + none =~= plain@);
        },
        Transport::Tcp { addr } => {
            assert(plain@ + none =~= plain@);
        },
        Transport::Dot { addr, sni } => {
            let port = if addr.port == 853 {
                none
            } else {
                seq![':'] + text::decimal(addr.port as nat)
            };
            assert("tls://"@ + (sni@ + port) + none =~= "tls://"@ + sni@ + port);
        },
        Transport::Doh { addr, sni, path } => {
            let port = if addr.port == 443 {
                none
            } else {
                seq![':'] + text::decimal(addr.port as nat)
            };
            let tail = if path@ == "/dns-query"@ {
                none
            } else {
                path@
            };
            assert("https://"@ + (sni@ + port + tail) + none =~= "https://"@ + sni@ + port + tail);
        },
        _ => {},
    }
}

/// A query is sent to the client's upstream: directly as its transport says, or
/// for a plain one through the proxy. An encrypted upstream is refused there.
pub proof fn law_route(c: &DnsClient, r: Result<Route, ClientError>)
    requires
        call_ensures(DnsClient::exchange_route, (c,), r),
    ensures
        c.transport matches Transport::Udp { addr } ==> r == Ok::<Route, ClientError>(
            if c.proxy is Some {
                Route::Proxy { addr }
            } else {
                Route::Udp { addr }
            },
        ),
        c.transport matches Transport::Tcp { addr } ==> r == Ok::<Route, ClientError>(
            if c.proxy is Some {
                Route::Proxy { addr }
            } else {
                Route::Tcp { addr }
            },
        ),
        (c.transport is Dot || c.transport is Doh) && c.proxy is Some ==> r is Err,
        c.transport is RCode ==> r is Err,
        c.transport matches Transport::Dot { addr, sni } ==> c.proxy is None ==> (r matches Ok(
            Route::Dot { addr: a, sni: n },
        ) && a == addr && n@ == sni@),
        c.transport matches Transport::Doh { addr, sni, path } ==> c.proxy is None ==> (
        r matches Ok(Route::Doh { addr: a, sni: n, path: p }) && a == addr && n@ == sni@ && p@
            == path@),
{
}

/// A query asks for the name, the type and the Internet class, wants recursion,
/// and expects a response to just that; a client with a fixed code answers with
/// it at once.
pub proof fn law_query(c: &DnsClient, id: u16, name: &str, t: u16, r: Result<QueryStep, ClientError>)
    requires
        call_ensures(DnsClient::query_with_id, (c, id, name, t), r),
    ensures
        message::parsed_name(name@) is None ==> r is Err,
        r matches Ok(QueryStep::Send { wire, expected, route }) ==> {
            &&& message::encoded_query(id, name@, t, true) == Ok::<Seq<u8>, Seq<char>>(wire@)
            &&& expected.id == id
            &&& Some(expected.query.name@) == message::parsed_name(name@)
            &&& expected.query.query_type == t
            &&& expected.query.query_class == 1
            &&& !(c.transport is RCode)
        },
        r matches Ok(QueryStep::Answered(m)) ==> {
            &&& c.transport == (Transport::RCode { code: m.response_code })
            &&& m.id == id && m.message_type is Response && m.answers@.len() == 0
            &&& m.queries@.len() == 1 && m.queries@[0].query_type == t
                && m.queries@[0].query_class == 1 && Some(m.queries@[0].name@)
                == message::parsed_name(name@)
        },
        c.transport is RCode && message::parsed_name(name@) is Some ==> r matches Ok(
            QueryStep::Answered(_),
        ),
        (c.transport is Udp || c.transport is Tcp) && message::parsed_name(name@) is Some
            && message::encoded_query(id, name@, t, true) is Ok ==> r is Ok,
{
    if let Ok(QueryStep::Answered(m)) = r {
        assert(m@.queries.len() == 1);
        assert(m@.queries[0] == m.queries@[0]@);
        assert(m@.answers.len() == m.answers@.len());
    }
}

/// Of the streams in a pool only those returned less than the limit ago are
/// reused, the last one first; the others are closed.
pub proof fn law_fresh_stream<T>(
    idle: &mut Vec<(T, Instant)>,
    now: Instant,
    limit: Duration,
    out: Option<T>,
)
    requires
        call_ensures(take_fresh::<T>, (idle, now, limit), out),
    ensures
        forall|i: int|
            0 <= i < final(idle)@.len() ==> old(idle)@.contains(#[trigger] final(idle)@[i])
                && final(idle)@[i].1.nanos + limit.nanos > now.nanos,
        out is None ==> final(idle)@.len() == 0 && forall|i: int|
            0 <= i < old(idle)@.len() ==> (#[trigger] old(idle)@[i]).1.nanos + limit.nanos
                <= now.nanos || limit.nanos == 0,
        out matches Some(s) ==> exists|i: int|
            0 <= i < old(idle)@.len() && (#[trigger] old(idle)@[i]).0 == s && old(idle)@[i].1.nanos
                + limit.nanos > now.nanos && forall|j: int|
                i < j < old(idle)@.len() ==> (#[trigger] old(idle)@[j]).1.nanos + limit.nanos
                    <= now.nanos || limit.nanos == 0,
{
    let pred = |p: (T, Instant)| crate::dns::client::reusable(p.1, now, limit);
    let all = old(idle)@;
    let kept = all.filter(pred);
    assert(kept == reusable_streams(all, now, limit));
    lemma_kept(all, pred);
    assert forall|i: int| 0 <= i < final(idle)@.len() implies all.contains(
        #[trigger] final(idle)@[i],
    ) && final(idle)@[i].1.nanos + limit.nanos > now.nanos by {
        assert(final(idle)@[i] == kept[i]);
        assert(all.contains(kept[i]) && pred(kept[i]));
    }
    if kept.len() == 0 {
        assert forall|i: int| 0 <= i < all.len() implies (#[trigger] all[i]).1.nanos + limit.nanos
            <= now.nanos || limit.nanos == 0 by {
            assert(!pred(all[i]));
        }
    } else {
        let i = choose|i: int|
            0 <= i < all.len() && #[trigger] all[i] == kept.last() && pred(all[i]) && forall|j: int|
                i < j < all.len() ==> !pred(#[trigger] all[j]);
        assert forall|j: int| i < j < all.len() implies (#[trigger] all[j]).1.nanos + limit.nanos
            <= now.nanos || limit.nanos == 0 by {
            assert(!pred(all[j]));
        }
        assert(pred(all[i]));
    }
}

proof fn lemma_kept<A>(all: Seq<A>, pred: spec_fn(A) -> bool)
    ensures
        forall|i: int|
            0 <= i < all.filter(pred).len() ==> all.contains(#[trigger] all.filter(pred)[i]) && pred(
                all.filter(pred)[i],
            ),
        all.filter(pred).len() == 0 ==> forall|i: int| 0 <= i < all.len() ==> !pred(#[trigger] all[i]),
        all.filter(pred).len() > 0 ==> exists|i: int|
            0 <= i < all.len() && #[trigger] all[i] == all.filter(pred).last() && pred(all[i])
                && forall|j: int| i < j < all.len() ==> !pred(#[trigger] all[j]),
    decreases all.len(),
{
    reveal(Seq::filter);
    if all.len() > 0 {
        let head = all.drop_last();
        lemma_kept(head, pred);
        let kept = all.filter(pred);
        assert forall|i: int| 0 <= i < kept.len() implies all.contains(#[trigger] kept[i]) && pred(
            kept[i],
        ) by {
            if i < head.filter(pred).len() {
                assert(kept[i] == head.filter(pred)[i]);
                let j = choose|j: int| 0 <= j < head.len() && head[j] == kept[i];
                assert(all[j] == kept[i]);
            } else {
                assert(all[all.len() - 1] == kept[i]);
            }
        }
        if kept.len() == 0 {
            assert forall|i: int| 0 <= i < all.len() implies !pred(#[trigger] all[i]) by {
                if i < head.len() {
                    assert(!pred(head[i]));
                }
            }
        } else if pred(all.last()) {
            assert(all[all.len() - 1] == kept.last());
        } else {
            let i = choose|i: int|
                0 <= i < head.len() && #[trigger] head[i] == head.filter(pred).last() && pred(head[i])
                    && forall|j: int| i < j < head.len() ==> !pred(#[trigger] head[j]);
            assert(all[i] == kept.last());
            assert forall|j: int| i < j < all.len() implies !pred(#[trigger] all[j]) by {
                if j < head.len() {
                    assert(!pred(head[j]));
                }
            }
        }
    }
}

/// A stream that brought the response is kept for reuse, while there is room; one
/// that did not is not, and a pooled one is tried again on a fresh connection.
pub proof fn law_stream_settled<T>(
    pool: &mut TcpPool<T>,
    stream: T,
    pooled: bool,
    reply: Result<Vec<u8>, ClientError>,
    expected: &ExpectedResponse,
    now: Instant,
    out: TcpOutcome,
    decoded: Result<DnsMessage, String>,
    valid: Result<(), ClientError>,
    wire: &[u8],
)
    requires
        call_ensures(TcpPool::<T>::settle, (pool, stream, pooled, reply, expected, now), out),
        reply matches Ok(bytes) ==> wire@ == bytes@,
        reply is Ok ==> call_ensures(decode_message, (wire,), decoded),
        decoded matches Ok(m) ==> call_ensures(validate_response, (&m, expected), valid),
    ensures
        reply is Ok && decoded is Ok && valid is Ok ==> {
            &&& out matches TcpOutcome::Done(d) && d@ == decoded->Ok_0@
            &&& final(pool).idle@ == old(pool).idle@.push((stream, now)) || (final(pool).idle@
                == old(pool).idle@ && old(pool).idle@.len() >= 2)
        },
        reply is Err || decoded is Err || valid is Err ==> final(pool).idle@ == old(pool).idle@ && (
        if pooled {
            out is Reconnect
        } else {
            out is Failed
        }),
{
}

/// A reused stream gets half of the time, and a quarter of a second at most.
pub proof fn law_pooled_budget(timeout: Duration, d: Duration)
    requires
        call_ensures(pooled_budget, (timeout,), d),
    ensures
        d.nanos <= 250_000_000,
        2 * d.nanos <= timeout.nanos,
        timeout.nanos >= 500_000_000 ==> d.nanos == 250_000_000,
        timeout.nanos < 500_000_000 ==> d.nanos == timeout.nanos / 2,
{
}

/// A message goes over a stream behind its length in two bytes, most significant
/// first; a longer one than those can count is refused.
pub proof fn law_framed(payload: &[u8], r: Result<Vec<u8>, ClientError>)
    requires
        call_ensures(write_lp, (payload,), r),
    ensures
        r is Ok <==> payload@.len() <= 65535,
        r matches Ok(out) ==> out@.len() == payload@.len() + 2 && out@[0] * 256 + out@[1]
            == payload@.len() && out@.skip(2) == payload@,
{
    if let Ok(out) = r {
        assert(out@.skip(2) =~= payload@);
    }
}

/// What is read from a stream is as many bytes as its first two count, once they
/// are there.
pub proof fn law_unframed(received: &[u8], out: Option<Vec<u8>>)
    requires
        call_ensures(read_lp, (received,), out),
    ensures
        out is Some <==> received@.len() >= 2 && received@.len() >= 2 + received@[0] * 256
            + received@[1],
        out matches Some(m) ==> m@ == received@.subrange(
            2,
            2 + received@[0] * 256 + received@[1],
        ),
{
}

/// A response over HTTPS may have 81919 bytes.
pub proof fn law_https_response_bound(all: &mut Vec<u8>, chunk: &[u8], r: Result<(), ClientError>)
    requires
        call_ensures(read_bounded_http_response, (all, chunk), r),
    ensures
        final(all)@ == old(all)@ + chunk@,
        r is Ok <==> old(all)@.len() + chunk@.len() <= 81919,
{
}

/// A query over HTTPS is a POST to the path of the server, with the message as
/// its body and its length told.
pub proof fn law_https_request(sni: &str, path: &str, wire: &[u8], out: Vec<u8>)
    requires
        call_ensures(doh_request, (sni, path, wire), out),
    ensures
        out@ == encode_utf8(
            "POST "@ + path@ + " HTTP/1.1\r\nHost: "@ + sni@
                + "\r\nUser-Agent: meow-rs\r\nAccept: application/dns-message\r\nContent-Type: application/dns-message\r\nContent-Length: "@
                + text::decimal(wire@.len()) + "\r\nConnection: close\r\n\r\n"@,
        ) + wire@,
{
}

/// The body of a response over HTTPS whose first line has the status 200 is the
/// message; any other status is an error.
pub proof fn law_https_response(
    all: &[u8],
    r: Result<Vec<u8>, ClientError>,
    version: Seq<char>,
    status: Seq<char>,
    reason: Seq<char>,
    body: Seq<u8>,
)
    requires
        call_ensures(doh_response, (all,), r),
        version.len() > 0 && text_laws::all_visible(version) && vstd::utf8::is_ascii_chars(version),
        status.len() > 0 && text_laws::all_visible(status) && vstd::utf8::is_ascii_chars(status),
        reason.len() > 0 && text_laws::all_visible(reason) && vstd::utf8::is_ascii_chars(reason),
        all@ == encode_utf8(version + seq![' '] + status + seq![' '] + reason) + seq![
            13u8,
            10,
            13,
            10,
        ] + body,
    ensures
        status == "200"@ ==> (r matches Ok(b) && b@ == body),
        status != "200"@ ==> r is Err,
{
    let line = version + seq![' '] + status + seq![' '] + reason;
    lemma_status_line(version, status, reason);
    assert(all@ =~= encode_utf8(line) + crate::dns::client::header_end() + body);
    lemma_outcome(all, r, encode_utf8(line), body);
    lemma_outcome_means(all@, r, line, status, body);
}

proof fn lemma_outcome_means(
    all: Seq<u8>,
    r: Result<Vec<u8>, ClientError>,
    line: Seq<char>,
    status: Seq<char>,
    body: Seq<u8>,
)
    requires
        crate::dns::client::doh_outcome(all, encode_utf8(line).len() as int, r),
        all == encode_utf8(line) + crate::dns::client::header_end() + body,
        crate::dns::client::status_of(line) == Some(status),
    ensures
        status == "200"@ ==> (r matches Ok(b) && b@ == body),
        status != "200"@ ==> r is Err,
{
    let head = encode_utf8(line);
    vstd::utf8::encode_utf8_valid_utf8(line);
    vstd::utf8::encode_utf8_decode_utf8(line);
    assert(all.take(head.len() as int) =~= head);
    assert(all.skip(head.len() as int + 4) =~= body);
}

proof fn lemma_outcome(all: &[u8], r: Result<Vec<u8>, ClientError>, head: Seq<u8>, body: Seq<u8>)
    requires
        call_ensures(doh_response, (all,), r),
        forall|j: int| 0 <= j < head.len() ==> #[trigger] head[j] != 13,
        all@ == head + crate::dns::client::header_end() + body,
    ensures
        crate::dns::client::doh_outcome(all@, head.len() as int, r),
{
    lemma_head_end(head, body);
}

proof fn lemma_head_end(head: Seq<u8>, body: Seq<u8>)
    requires
        forall|j: int| 0 <= j < head.len() ==> #[trigger] head[j] != 13,
    ensures
        octets::first_at(
            head + crate::dns::client::header_end() + body,
            crate::dns::client::header_end(),
            0,
        ) == Some(head.len() as int),
{
    let end = crate::dns::client::header_end();
    let all = head + end + body;
    let n = head.len() as int;
    assert(all.subrange(n, n + 4) =~= end);
    assert forall|j: int| 0 <= j < n implies !octets::occurs_at(all, end, j) by {
        if octets::occurs_at(all, end, j) {
            let p = all.subrange(j, j + 4);
            assert(p == end);
            assert(p[0] == 13);
            assert(all[j] == head[j]);
        }
    }
    octets::lemma_first_is(all, end, n);
}

proof fn lemma_status_line(version: Seq<char>, status: Seq<char>, reason: Seq<char>)
    requires
        version.len() > 0 && text_laws::all_visible(version) && vstd::utf8::is_ascii_chars(version),
        status.len() > 0 && text_laws::all_visible(status) && vstd::utf8::is_ascii_chars(status),
        reason.len() > 0 && text_laws::all_visible(reason) && vstd::utf8::is_ascii_chars(reason),
    ensures
        ({
            let line = version + seq![' '] + status + seq![' '] + reason;
            &&& forall|j: int| 0 <= j < encode_utf8(line).len() ==> #[trigger] encode_utf8(line)[j] != 13
            &&& crate::dns::client::status_of(line) == Some(status)
        }),
{
    let line = version + seq![' '] + status + seq![' '] + reason;
    let head = encode_utf8(line);
    let v = version.len() as int;
    let t = status.len() as int;
    assert forall|i: int| 0 <= i < line.len() implies (#[trigger] line[i]) as int <= 127 && line[i]
        != '\r' && line[i] != '\n' by {
        if i < v {
            assert(text_laws::visible(version[i]));
            assert(line[i] == version[i]);
        } else if v < i < v + 1 + t {
            assert(text_laws::visible(status[i - v - 1]));
            assert(line[i] == status[i - v - 1]);
        } else if i > v + 1 + t {
            assert(text_laws::visible(reason[i - v - t - 2]));
            assert(line[i] == reason[i - v - t - 2]);
        }
    }
    assert(vstd::utf8::is_ascii_chars(line));
    vstd::utf8::is_ascii_chars_encode_utf8(line);
    assert forall|j: int| 0 <= j < head.len() implies #[trigger] head[j] != 13 by {
        assert(head[j] == line[j] as u8);
        assert(line[j] as int <= 127 && line[j] != '\r');
    }
    text_laws::lemma_three_words(version, status, reason);
    assert(!line.contains('\n')) by {
        if line.contains('\n') {
            let i = choose|i: int| 0 <= i < line.len() && line[i] == '\n';
            assert(line[i] != '\n');
        }
    }
    text::lemma_first_of(line, '\n');
    assert(text::lines_of(line) =~= seq![line]);
}

/// A response over HTTPS is judged by what stands around the first empty line
/// of it, and one without an empty line is refused.
pub proof fn law_https_head_end(all: &[u8], r: Result<Vec<u8>, ClientError>, i: int)
    requires
        call_ensures(doh_response, (all,), r),
    ensures
        (forall|k: int| !octets::occurs_at(all@, crate::dns::client::header_end(), k)) ==> (
        r matches Err(e) && e.is_fault("doh: missing header terminator"@)),
        octets::occurs_at(all@, crate::dns::client::header_end(), i) && (forall|j: int|
            0 <= j < i ==> !octets::occurs_at(all@, crate::dns::client::header_end(), j))
            ==> crate::dns::client::doh_outcome(all@, i, r),
{
    let end = crate::dns::client::header_end();
    octets::lemma_first_at(all@, end, 0);
    if octets::occurs_at(all@, end, i) && (forall|j: int|
        0 <= j < i ==> !octets::occurs_at(all@, end, j)) {
        octets::lemma_first_is(all@, end, i);
    }
}

} // verus!
