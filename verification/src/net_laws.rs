//! What holds of every network address.
use crate::net::{ipv4, IpAddr, SocketAddr};
use crate::text;
use vstd::prelude::*;

verus! {

/// An IPv4 address has the four octets that it is made of, in their order, and
/// is written with them, dots between them.
pub proof fn law_ipv4(a: u8, b: u8, c: u8, d: u8, ip: IpAddr, octets: Vec<u8>, shown: String)
    requires
        call_ensures(ipv4, (a, b, c, d), ip),
        call_ensures(IpAddr::octets, (&ip,), octets),
        call_ensures(IpAddr::to_text, (&ip,), shown),
    ensures
        ip is V4,
        octets@ == seq![a, b, c, d],
        shown@ == text::decimal(a as nat) + seq!['.'] + text::decimal(b as nat) + seq!['.']
            + text::decimal(c as nat) + seq!['.'] + text::decimal(d as nat),
{
    let n = a * 0x100_0000 + b * 0x1_0000 + c * 0x100 + d;
    assert(n <= 0xffff_ffff);
    let x = n as u32;
    lemma_quarters(a, b, c, d, x);
    lemma_four_bytes(x, a, b, c, d);
}

proof fn lemma_quarters(a: u8, b: u8, c: u8, d: u8, x: u32)
    requires
        x == a * 0x100_0000 + b * 0x1_0000 + c * 0x100 + d,
    ensures
        x / 0x100_0000 == a,
        x / 0x1_0000 % 0x100 == b,
        x / 0x100 % 0x100 == c,
        x % 0x100 == d,
        x / 256 == a * 0x1_0000 + b * 0x100 + c,
        x / 0x1_0000 == a * 0x100 + b,
{
}

proof fn lemma_four_bytes(x: u32, a: u8, b: u8, c: u8, d: u8)
    requires
        x == a * 0x100_0000 + b * 0x1_0000 + c * 0x100 + d,
    ensures
        crate::net::be_bytes(x as nat, 4) == seq![a, b, c, d],
{
    let x1 = (a * 0x1_0000 + b * 0x100 + c) as nat;
    let x2 = (a * 0x100 + b) as nat;
    let x3 = a as nat;
    assert(x as nat / 256 == x1 && x as nat % 256 == d);
    assert(x1 / 256 == x2 && x1 % 256 == c);
    assert(x2 / 256 == x3 && x2 % 256 == b);
    assert(x3 / 256 == 0 && x3 % 256 == a);
    let none = crate::net::be_bytes(0, 0);
    let one = crate::net::be_bytes(x3, 1);
    assert(one == none.push(a));
    let two = crate::net::be_bytes(x2, 2);
    assert(two == one.push(b));
    let three = crate::net::be_bytes(x1, 3);
    assert(three == two.push(c));
    assert(crate::net::be_bytes(x as nat, 4) == three.push(d));
    assert(three.push(d) =~= seq![a, b, c, d]);
}

/// The number that some bytes write, most significant first.
pub open spec fn value_of(b: Seq<u8>) -> nat
    decreases b.len(),
{
    if b.len() == 0 {
        0
    } else {
        value_of(b.drop_last()) * 256 + b.last() as nat
    }
}

/// The octets of an address write its number: four of them for IPv4, sixteen
/// for IPv6.
pub proof fn law_octets(ip: IpAddr, out: Vec<u8>)
    requires
        call_ensures(IpAddr::octets, (&ip,), out),
    ensures
        ip matches IpAddr::V4(x) ==> out@.len() == 4 && value_of(out@) == x,
        ip matches IpAddr::V6(x) ==> out@.len() == 16 && value_of(out@) == x,
{
    match ip {
        IpAddr::V4(x) => {
            lemma_pow();
            lemma_be(x as nat, 4);
        },
        IpAddr::V6(x) => {
            lemma_pow();
            lemma_be(x as nat, 16);
        },
    }
}

/// The number of values that some bytes can write.
spec fn span(width: nat) -> nat
    decreases width,
{
    if width == 0 {
        1
    } else {
        256 * span((width - 1) as nat)
    }
}

proof fn lemma_pow()
    ensures
        span(4) == 0x1_0000_0000,
        span(16) == 0x1_0000_0000_0000_0000_0000_0000_0000_0000,
{
    reveal_with_fuel(span, 17);
}

proof fn lemma_be(value: nat, width: nat)
    requires
        value < span(width),
    ensures
        crate::net::be_bytes(value, width).len() == width,
        value_of(crate::net::be_bytes(value, width)) == value,
    decreases width,
{
    if width > 0 {
        let head = crate::net::be_bytes(value / 256, (width - 1) as nat);
        assert(value / 256 < span((width - 1) as nat));
        lemma_be(value / 256, (width - 1) as nat);
        let all = crate::net::be_bytes(value, width);
        assert(all.drop_last() =~= head);
        assert(all.last() == (value % 256) as u8);
        assert((value / 256) * 256 + value % 256 == value);
    }
}

/// Addresses are ordered: IPv4 before IPv6, then by number; of two different
/// ones exactly one comes first, and none comes before itself.
pub proof fn law_order(
    a: IpAddr,
    b: IpAddr,
    a_first: bool,
    b_first: bool,
    itself: bool,
)
    requires
        call_ensures(IpAddr::before, (&a, &b), a_first),
        call_ensures(IpAddr::before, (&b, &a), b_first),
        call_ensures(IpAddr::before, (&a, &a), itself),
    ensures
        !itself,
        a != b ==> a_first != b_first,
        a is V4 && b is V6 ==> a_first,
        a matches IpAddr::V4(x) ==> b matches IpAddr::V4(y) ==> (a_first <==> x < y),
        a matches IpAddr::V6(x) ==> b matches IpAddr::V6(y) ==> (a_first <==> x < y),
{
}

/// An address with a port is written with a colon before the port, and an IPv6
/// address stands in brackets, with its scope behind a percent sign if it has
/// one.
pub proof fn law_socket_text(addr: SocketAddr, ip: String, shown: String)
    requires
        call_ensures(SocketAddr::to_text, (&addr,), shown),
        call_ensures(IpAddr::to_text, (&addr.ip,), ip),
    ensures
        addr.ip is V4 ==> shown@ == ip@ + seq![':'] + text::decimal(addr.port as nat),
        addr.ip is V6 && addr.scope_id == 0 ==> shown@ == seq!['['] + ip@ + seq![']'] + seq![':']
            + text::decimal(addr.port as nat),
        addr.ip is V6 && addr.scope_id != 0 ==> shown@ == seq!['['] + ip@ + seq!['%']
            + text::decimal(addr.scope_id as nat) + seq![']'] + seq![':'] + text::decimal(
            addr.port as nat,
        ),
{
    let port = text::decimal(addr.port as nat);
    if addr.ip is V6 {
        if addr.scope_id == 0 {
            assert(seq!['['] + ip@ + Seq::<char>::empty() + seq![']'] =~= seq!['['] + ip@ + seq![
                ']',
            ]);
        } else {
            let scope = text::decimal(addr.scope_id as nat);
            assert(seq!['['] + ip@ + (seq!['%'] + scope) + seq![']'] =~= seq!['['] + ip@ + seq!['%']
                + scope + seq![']']);
        }
    }
}

} // verus!
