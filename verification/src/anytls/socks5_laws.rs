//! What holds of every SOCKS5 client.
use crate::anytls::error::AnyTlsError;
use crate::anytls::socks5::{
    authenticate, be_value, connection_reply, read_connection_request, relay_step, Greeting, Next,
    Request, Socks5Session, Step,
};
use crate::net;
use crate::net::IpAddr;
use crate::text;
use vstd::prelude::*;
use vstd::utf8::{decode_utf8, encode_utf8, valid_utf8};

verus! {

/// A client is let in when it offers the method without authentication, at
/// whatever place among its methods, and refused when it does not.
pub proof fn law_any_method_will_do(received: &[u8], methods: Seq<u8>, rest: Seq<u8>, g: Greeting)
    requires
        call_ensures(authenticate, (received,), g),
        1 <= methods.len() <= 255,
        received@ == seq![5u8, methods.len() as u8] + methods + rest,
    ensures
        (exists|i: int| 0 <= i < methods.len() && methods[i] == 0) ==> g == Greeting::Accepted(
            (2 + methods.len()) as usize,
        ),
        (forall|i: int| 0 <= i < methods.len() ==> methods[i] != 0) ==> g == Greeting::Refused,
{
    let b = received@;
    assert(b.subrange(2, 2 + b[1]) =~= methods);
    if exists|i: int| 0 <= i < methods.len() && methods[i] == 0 {
        let i = choose|i: int| 0 <= i < methods.len() && methods[i] == 0;
        assert(methods.contains(methods[i]));
    }
}

/// In which order a client offers its methods does not matter.
pub proof fn law_method_order(
    received: &[u8],
    other: &[u8],
    methods: Seq<u8>,
    shuffled: Seq<u8>,
    g: Greeting,
    h: Greeting,
)
    requires
        call_ensures(authenticate, (received,), g),
        call_ensures(authenticate, (other,), h),
        1 <= methods.len() <= 255,
        methods.to_multiset() == shuffled.to_multiset(),
        received@ == seq![5u8, methods.len() as u8] + methods,
        other@ == seq![5u8, shuffled.len() as u8] + shuffled,
    ensures
        g == h,
{
    broadcast use vstd::seq_lib::group_to_multiset_ensures;

    methods.to_multiset_ensures();
    shuffled.to_multiset_ensures();
    assert(methods.len() == shuffled.len());
    assert(methods.contains(0) == (methods.to_multiset().count(0) > 0));
    assert(shuffled.contains(0) == (shuffled.to_multiset().count(0) > 0));
    assert(received@ =~= seq![5u8, methods.len() as u8] + methods + Seq::<u8>::empty());
    assert(other@ =~= seq![5u8, shuffled.len() as u8] + shuffled + Seq::<u8>::empty());
    law_any_method_will_do(received, methods, Seq::empty(), g);
    law_any_method_will_do(other, shuffled, Seq::empty(), h);
    if methods.contains(0) {
        let i = choose|i: int| 0 <= i < methods.len() && methods[i] == 0;
        let j = choose|j: int| 0 <= j < shuffled.len() && shuffled[j] == 0;
        assert(methods[i] == 0 && shuffled[j] == 0);
    } else {
        assert forall|i: int| 0 <= i < methods.len() implies methods[i] != 0 by {
            assert(methods.contains(methods[i]));
        }
        assert forall|i: int| 0 <= i < shuffled.len() implies shuffled[i] != 0 by {
            assert(shuffled.contains(shuffled[i]));
        }
    }
}

/// A greeting of another version, or without methods, is told apart by its two
/// first bytes; one that has not arrived in full is waited for.
pub proof fn law_greeting_faults(received: &[u8], g: Greeting)
    requires
        call_ensures(authenticate, (received,), g),
    ensures
        received@.len() < 2 ==> g == Greeting::Incomplete,
        received@.len() >= 2 && received@[0] != 5 ==> g == Greeting::BadVersion(received@[0]),
        received@.len() >= 2 && received@[0] == 5 && received@[1] == 0 ==> g
            == Greeting::NoMethods,
        received@.len() >= 2 && received@[0] == 5 && received@[1] > 0 ==> (g
            == Greeting::Incomplete <==> received@.len() < 2 + received@[1]),
{
}

/// The octets of an IPv4 address with a port give the dotted address and the
/// port, most significant byte first.
pub proof fn law_request_for_ipv4(received: &[u8], ip: Seq<u8>, port: Seq<u8>, rest: Seq<u8>, r: Request)
    requires
        call_ensures(read_connection_request, (received,), r),
        ip.len() == 4,
        port.len() == 2,
        received@.len() >= 4,
        received@ == seq![5u8, received@[1], received@[2], 1u8] + ip + port + rest,
    ensures
        r matches Request::Complete { dest, cmd, len } && dest.addr@ == text::decimal(ip[0] as nat)
            + "."@ + text::decimal(ip[1] as nat) + "."@ + text::decimal(ip[2] as nat) + "."@
            + text::decimal(ip[3] as nat) && dest.port == port[0] * 256 + port[1] && cmd
            == received@[1] && len == 10,
{
    let b = received@;
    assert(b.subrange(4, 8) =~= ip);
    assert(b[8] == port[0] && b[9] == port[1]);
    lemma_four(ip);
    lemma_dotted(ip);
}

proof fn lemma_four(ip: Seq<u8>)
    requires
        ip.len() == 4,
    ensures
        be_value(ip) == ip[0] * 0x100_0000 + ip[1] * 0x1_0000 + ip[2] * 0x100 + ip[3],
{
    reveal_with_fuel(be_value, 5);
    assert(ip.drop_last().last() == ip[2]);
    assert(ip.drop_last().drop_last().last() == ip[1]);
    assert(ip.drop_last().drop_last().drop_last().last() == ip[0]);
}

proof fn lemma_dotted(ip: Seq<u8>)
    requires
        ip.len() == 4,
    ensures
        net::ip_text(IpAddr::V4(be_value(ip) as u32)) == text::decimal(ip[0] as nat) + "."@
            + text::decimal(ip[1] as nat) + "."@ + text::decimal(ip[2] as nat) + "."@
            + text::decimal(ip[3] as nat),
{
    reveal_strlit(".");
    lemma_four(ip);
    let x = be_value(ip) as u32;
    assert(x / 0x100_0000 == ip[0]);
    assert(x / 0x1_0000 % 256 == ip[1]);
    assert(x / 0x100 % 256 == ip[2]);
    assert(x % 256 == ip[3]);
    assert("."@ =~= seq!['.']);
}

/// A name of one to 255 bytes is the destination as it was sent.
pub proof fn law_request_for_domain(
    received: &[u8],
    name: Seq<char>,
    port: Seq<u8>,
    rest: Seq<u8>,
    r: Request,
)
    requires
        call_ensures(read_connection_request, (received,), r),
        1 <= encode_utf8(name).len() <= 255,
        port.len() == 2,
        received@.len() >= 4,
        received@ == seq![
            5u8,
            received@[1],
            received@[2],
            3u8,
            encode_utf8(name).len() as u8,
        ] + encode_utf8(name) + port + rest,
    ensures
        r matches Request::Complete { dest, cmd, len } && dest.addr@ == name && dest.port == port[0]
            * 256 + port[1] && cmd == received@[1] && len == 7 + encode_utf8(name).len(),
{
    let b = received@;
    let n = encode_utf8(name).len() as int;
    assert(b.subrange(5, 5 + n) =~= encode_utf8(name));
    assert(b[5 + n] == port[0] && b[6 + n] == port[1]);
    vstd::utf8::encode_utf8_valid_utf8(name);
    vstd::utf8::encode_utf8_decode_utf8(name);
}

/// The sixteen octets of an IPv6 address with a port give that address and the
/// port.
pub proof fn law_request_for_ipv6(
    received: &[u8],
    ip: u128,
    port: Seq<u8>,
    rest: Seq<u8>,
    r: Request,
)
    requires
        call_ensures(read_connection_request, (received,), r),
        port.len() == 2,
        received@.len() >= 4,
        received@ == seq![5u8, received@[1], received@[2], 4u8] + net::ip_octets(IpAddr::V6(ip))
            + port + rest,
    ensures
        r matches Request::Complete { dest, cmd, len } && dest.addr@ == net::ip_text(
            IpAddr::V6(ip),
        ) && dest.port == port[0] * 256 + port[1] && cmd == received@[1] && len == 22,
{
    let b = received@;
    lemma_be_bytes_len(ip as nat, 16);
    assert(b.subrange(4, 20) =~= net::be_bytes(ip as nat, 16));
    assert(b[20] == port[0] && b[21] == port[1]);
    lemma_pow_sixteen();
    lemma_be_bytes(ip as nat, 16);
}

proof fn lemma_pow_sixteen()
    ensures
        pow256(16) == 0x1_0000_0000_0000_0000_0000_0000_0000_0000,
{
    assert(pow256(16) == 0x1_0000_0000_0000_0000_0000_0000_0000_0000) by {
        reveal_with_fuel(pow256, 17);
    }
}

spec fn pow256(n: nat) -> nat
    decreases n,
{
    if n == 0 {
        1
    } else {
        256 * pow256((n - 1) as nat)
    }
}

proof fn lemma_be_bytes_len(value: nat, width: nat)
    ensures
        net::be_bytes(value, width).len() == width,
    decreases width,
{
    if width > 0 {
        lemma_be_bytes_len(value / 256, (width - 1) as nat);
    }
}

proof fn lemma_be_bytes(value: nat, width: nat)
    requires
        value < pow256(width),
    ensures
        be_value(net::be_bytes(value, width)) == value,
    decreases width,
{
    if width > 0 {
        let n = (width - 1) as nat;
        assert(value / 256 < pow256(n)) by (nonlinear_arith)
            requires
                value < 256 * pow256(n),
        ;
        lemma_be_bytes(value / 256, n);
        assert(net::be_bytes(value, width).drop_last() =~= net::be_bytes(value / 256, n));
    }
}

/// A request of another version or with another type of address is refused with
/// what it wrote; an empty name and one that is no text are refused; one that has
/// not arrived in full is waited for.
pub proof fn law_request_faults(received: &[u8], r: Request)
    requires
        call_ensures(read_connection_request, (received,), r),
    ensures
        ({
            let b = received@;
            &&& b.len() < 4 ==> r is Incomplete
            &&& b.len() >= 4 && b[0] != 5 ==> r == Request::BadVersion(b[0])
            &&& b.len() >= 4 && b[0] == 5 ==> {
                &&& b[3] == 1 ==> (r is Incomplete <==> b.len() < 10) && (r is Incomplete
                    || r is Complete)
                &&& b[3] == 4 ==> (r is Incomplete <==> b.len() < 22) && (r is Incomplete
                    || r is Complete)
                &&& b[3] != 1 && b[3] != 3 && b[3] != 4 ==> r == Request::UnsupportedAddress(b[3])
                &&& b[3] == 3 && b.len() >= 5 && b[4] == 0 ==> r is EmptyDomain
                &&& b[3] == 3 && b.len() >= 5 && b[4] > 0 && b.len() >= 5 + b[4] && !valid_utf8(
                    b.subrange(5, 5 + b[4]),
                ) ==> (r matches Request::BadDomain(d) && d@ == b.subrange(5, 5 + b[4]))
                &&& b[3] == 3 && (b.len() < 5 || (b[4] > 0 && b.len() < 5 + b[4]))
                    ==> r is Incomplete
            }
        }),
{
}

/// Each reply is of version five, tells how it went, and gives an empty IPv4
/// address and port.
pub proof fn law_replies(reply: u8, out: Vec<u8>)
    requires
        call_ensures(connection_reply, (reply,), out),
    ensures
        out@ == seq![5u8, reply, 0, 1, 0, 0, 0, 0, 0, 0],
{
}

/// A client whose greeting is accepted is answered `05 00`, and its request,
/// where it has arrived too, is carried out: a stream to its destination is
/// opened.
pub proof fn law_client_is_served(
    s: &mut Socks5Session,
    data: &[u8],
    step: Step,
    methods: Seq<u8>,
    request: &[u8],
    r: Request,
)
    requires
        call_ensures(Socks5Session::on_data, (s, data), step),
        call_ensures(read_connection_request, (request,), r),
        old(s).phase is Greeting,
        1 <= methods.len() <= 255,
        methods.contains(0),
        old(s).pending@ + data@ == seq![5u8, methods.len() as u8] + methods + request@,
    ensures
        step.send@ == seq![5u8, 0u8],
        match r {
            Request::Complete { dest, len, .. } => {
                &&& step.next matches Next::Connect(to) && to.addr@ == dest.addr@ && to.port
                    == dest.port
                &&& final(s).phase is Connecting
                &&& final(s).pending@ == request@.skip(len as int)
            },
            Request::Incomplete => step.next is Read && final(s).phase is Request && final(s).pending@ == request@,
            _ => step.next is Fail && final(s).phase is Closed,
        },
{
    let b = old(s).pending@ + data@;
    assert(b.subrange(2, 2 + b[1]) =~= methods);
    assert(b.skip(2 + b[1]) =~= request@);
}

/// A client that offers no method that is accepted is answered `05 FF` and let
/// go.
pub proof fn law_client_is_refused(
    s: &mut Socks5Session,
    data: &[u8],
    step: Step,
    methods: Seq<u8>,
    rest: Seq<u8>,
)
    requires
        call_ensures(Socks5Session::on_data, (s, data), step),
        old(s).phase is Greeting,
        1 <= methods.len() <= 255,
        !methods.contains(0),
        old(s).pending@ + data@ == seq![5u8, methods.len() as u8] + methods + rest,
    ensures
        step.send@ == seq![5u8, 255u8],
        step.next matches Next::Fail(e) && e.is_protocol(
            "Client does not support NO AUTHENTICATION"@,
        ),
        final(s).phase is Closed,
{
    let b = old(s).pending@ + data@;
    assert(b.subrange(2, 2 + b[1]) =~= methods);
}

/// A request that arrives behind its greeting is carried out as it is read.
pub proof fn law_request_is_carried_out(
    s: &mut Socks5Session,
    data: &[u8],
    step: Step,
    whole: &[u8],
    r: Request,
)
    requires
        call_ensures(Socks5Session::on_data, (s, data), step),
        call_ensures(read_connection_request, (whole,), r),
        old(s).phase is Request,
        whole@ == old(s).pending@ + data@,
    ensures
        step.send@.len() == 0,
        match r {
            Request::Complete { dest, len, .. } => {
                &&& step.next matches Next::Connect(to) && to.addr@ == dest.addr@ && to.port
                    == dest.port
                &&& final(s).phase is Connecting
                &&& final(s).pending@ == whole@.skip(len as int)
            },
            Request::Incomplete => step.next is Read && final(s).phase is Request && final(s).pending@ == whole@,
            _ => step.next is Fail && final(s).phase is Closed,
        },
{
}

/// A stream that was opened is told to the client and relayed to, with what
/// the client sent early in front; one that was not is told as a failure, with
/// the cause.
pub proof fn law_stream_is_told(
    s: &mut Socks5Session,
    opened: Result<(), AnyTlsError>,
    step: Step,
)
    requires
        call_ensures(Socks5Session::on_stream, (s, opened), step),
    ensures
        opened is Ok ==> step.send@ == seq![5u8, 0, 0, 1, 0, 0, 0, 0, 0, 0] && final(s).phase is Relaying && (step.next matches Next::Relay(first) && first@ == old(s).pending@),
        opened matches Err(e) ==> step.send@ == seq![5u8, 1, 0, 1, 0, 0, 0, 0, 0, 0] && final(s).phase is Closed && step.next == Next::Fail(e),
{
}

/// A relay forwards what was read, unchanged and in full, and ends with the
/// data or at an error.
pub proof fn law_relay_forwards(read: Result<usize, AnyTlsError>, buf: &[u8], out: Option<Vec<u8>>)
    requires
        call_ensures(relay_step, (read, buf), out),
        read matches Ok(n) ==> n <= buf@.len(),
    ensures
        out is Some <==> (read matches Ok(n) && n > 0),
        out matches Some(d) ==> d@.len() == read->Ok_0 && forall|i: int|
            0 <= i < d@.len() ==> d@[i] == buf@[i],
{
}

} // verus!
