//! Internet addresses as plain numbers.
use crate::text;
use hickory_proto::rr::rdata::{A, AAAA};
use hickory_proto::rr::RData;
use trust_dns_resolver::config::{NameServerConfig, Protocol};
use vstd::prelude::*;

verus! {

/// An IP address. The number holds the octets, most significant first.
#[derive(Clone, Copy, Debug, PartialEq, Eq, Structural)]
pub enum IpAddr {
    V4(u32),
    V6(u128),
}

/// The IPv4 address `a.b.c.d`.
pub fn ipv4(a: u8, b: u8, c: u8, d: u8) -> (ip: IpAddr)
    ensures
        ip == IpAddr::V4((a * 0x100_0000 + b * 0x1_0000 + c * 0x100 + d) as u32),
{
    IpAddr::V4(a as u32 * 0x100_0000 + b as u32 * 0x1_0000 + c as u32 * 0x100 + d as u32)
}

/// The order of addresses: IPv4 before IPv6, then by octets.
pub open spec fn ip_before(a: IpAddr, b: IpAddr) -> bool {
    match (a, b) {
        (IpAddr::V4(x), IpAddr::V4(y)) => x < y,
        (IpAddr::V4(_), IpAddr::V6(_)) => true,
        (IpAddr::V6(_), IpAddr::V4(_)) => false,
        (IpAddr::V6(x), IpAddr::V6(y)) => x < y,
    }
}

/// The `width` low bytes of `value`, most significant first.
pub open spec fn be_bytes(value: nat, width: nat) -> Seq<u8>
    decreases width,
{
    if width == 0 {
        Seq::empty()
    } else {
        be_bytes(value / 256, (width - 1) as nat).push((value % 256) as u8)
    }
}

/// The octets of an address.
pub open spec fn ip_octets(ip: IpAddr) -> Seq<u8> {
    match ip {
        IpAddr::V4(x) => be_bytes(x as nat, 4),
        IpAddr::V6(x) => be_bytes(x as nat, 16),
    }
}

/// The `width` low bytes of `value`, most significant first.
pub fn to_be_bytes(value: u128, width: usize) -> (out: Vec<u8>)
    ensures
        out@ == be_bytes(value as nat, width as nat),
    decreases width,
{
    if width == 0 {
        Vec::new()
    } else {
        let mut out = to_be_bytes(value / 256, width - 1);
        out.push((value % 256) as u8);
        out
    }
}

impl IpAddr {
    /// Whether this is an IPv4 address.
    pub fn is_ipv4(&self) -> (b: bool)
        ensures
            b == (self is V4),
    {
        match self {
            IpAddr::V4(_) => true,
            IpAddr::V6(_) => false,
        }
    }

    /// The octets of the address, most significant first.
    pub fn octets(&self) -> (out: Vec<u8>)
        ensures
            out@ == ip_octets(*self),
    {
        match *self {
            IpAddr::V4(x) => to_be_bytes(x as u128, 4),
            IpAddr::V6(x) => to_be_bytes(x, 16),
        }
    }

    /// Whether this address sorts before `other`.
    pub fn before(&self, other: &IpAddr) -> (b: bool)
        ensures
            b == ip_before(*self, *other),
    {
        match (*self, *other) {
            (IpAddr::V4(x), IpAddr::V4(y)) => x < y,
            (IpAddr::V4(_), IpAddr::V6(_)) => true,
            (IpAddr::V6(_), IpAddr::V4(_)) => false,
            (IpAddr::V6(x), IpAddr::V6(y)) => x < y,
        }
    }
}

/// The text form of an IPv6 address.
pub uninterp spec fn ipv6_text(bits: u128) -> Seq<char>;

/// The IPv6 address that a text writes, if it writes one.
pub uninterp spec fn ipv6_of_text(s: Seq<char>) -> Option<u128>;

/// The IPv4 address that a text writes in dotted decimals, if it writes one.
pub uninterp spec fn ipv4_of_text(s: Seq<char>) -> Option<u32>;

/// The `Display` form of `hickory_proto`'s `AAAA`, which is that of the
/// standard library's IPv6 address. How the groups are written is not stated
/// here.
#[verifier::external_body]
fn ipv6_display(bits: u128) -> (out: String)
    ensures
        out@ == ipv6_text(bits),
{
    AAAA(bits.into()).to_string()
}

/// `FromStr` of `hickory_proto`'s `AAAA`, which is that of the standard
/// library's IPv6 address. Which texts write which address is not stated here.
#[verifier::external_body]
fn ipv6_parse(s: &str) -> (bits: Option<u128>)
    ensures
        bits == ipv6_of_text(s@),
{
    s.parse::<AAAA>().ok().map(|a| u128::from(a.0))
}

/// `FromStr` of `hickory_proto`'s `A`, which is that of the standard library's
/// IPv4 address. Which texts write which address is not stated here.
#[verifier::external_body]
fn ipv4_parse(s: &str) -> (bits: Option<u32>)
    ensures
        bits == ipv4_of_text(s@),
{
    s.parse::<A>().ok().map(|a| u32::from(a.0))
}

/// The dotted-decimal form of an IPv4 address.
pub open spec fn ipv4_text(x: u32) -> Seq<char> {
    text::decimal((x / 0x100_0000) as nat) + seq!['.'] + text::decimal(
        (x / 0x1_0000 % 0x100) as nat,
    ) + seq!['.'] + text::decimal((x / 0x100 % 0x100) as nat) + seq!['.'] + text::decimal(
        (x % 0x100) as nat,
    )
}

/// The text form of an address.
pub open spec fn ip_text(ip: IpAddr) -> Seq<char> {
    match ip {
        IpAddr::V4(x) => ipv4_text(x),
        IpAddr::V6(x) => ipv6_text(x),
    }
}

/// The address that a text writes: an IPv4 address if it can be read as one,
/// else an IPv6 address.
pub open spec fn ip_of_text(s: Seq<char>) -> Option<IpAddr> {
    match ipv4_of_text(s) {
        Some(x) => Some(IpAddr::V4(x)),
        None => match ipv6_of_text(s) {
            Some(x) => Some(IpAddr::V6(x)),
            None => None,
        },
    }
}

/// Reads an address.
pub fn parse_ip(s: &str) -> (ip: Option<IpAddr>)
    ensures
        ip == ip_of_text(s@),
{
    match ipv4_parse(s) {
        Some(x) => Some(IpAddr::V4(x)),
        None => match ipv6_parse(s) {
            Some(x) => Some(IpAddr::V6(x)),
            None => None,
        },
    }
}

impl IpAddr {
    /// The text form of the address.
    pub fn to_text(&self) -> (out: String)
        ensures
            out@ == ip_text(*self),
    {
        match *self {
            IpAddr::V4(x) => {
                let mut out = String::new();
                text::push_decimal(&mut out, (x / 0x100_0000) as u64);
                out.push('.');
                text::push_decimal(&mut out, (x / 0x1_0000 % 0x100) as u64);
                out.push('.');
                text::push_decimal(&mut out, (x / 0x100 % 0x100) as u64);
                out.push('.');
                text::push_decimal(&mut out, (x % 0x100) as u64);
                assert(out@ =~= ipv4_text(x));
                out
            },
            IpAddr::V6(x) => ipv6_display(x),
        }
    }

    /// Whether the address belongs to the host itself.
    pub fn is_loopback(&self) -> (b: bool)
        ensures
            b == (match *self {
                IpAddr::V4(x) => x / 0x100_0000 == 127,
                IpAddr::V6(x) => x == 1,
            }),
    {
        match *self {
            IpAddr::V4(x) => x / 0x100_0000 == 127,
            IpAddr::V6(x) => x == 1,
        }
    }
}

/// An address and a port.
#[derive(Clone, Copy, Debug, PartialEq, Eq, Structural)]
pub struct SocketAddr {
    pub ip: IpAddr,
    pub port: u16,
    /// The scope in which an IPv6 address is meant; zero for none.
    pub scope_id: u32,
}

/// An address and a port, without a scope.
pub open spec fn socket(ip: IpAddr, port: u16) -> SocketAddr {
    SocketAddr { ip, port, scope_id: 0 }
}

/// A scope behind a percent sign; nothing where there is none.
pub open spec fn scope_text(scope_id: u32) -> Seq<char> {
    if scope_id == 0 {
        Seq::empty()
    } else {
        seq!['%'] + text::decimal(scope_id as nat)
    }
}

/// The text form of an address and port.
pub open spec fn socket_text(addr: SocketAddr) -> Seq<char> {
    (match addr.ip {
        IpAddr::V4(x) => ipv4_text(x),
        IpAddr::V6(x) => seq!['['] + ipv6_text(x) + scope_text(addr.scope_id) + seq![']'],
    }) + seq![':'] + text::decimal(addr.port as nat)
}

impl SocketAddr {
    /// An address and a port, without a scope.
    pub fn new(ip: IpAddr, port: u16) -> (addr: Self)
        ensures
            addr == socket(ip, port),
    {
        SocketAddr { ip, port, scope_id: 0 }
    }

    /// The text form of the address and port.
    pub fn to_text(&self) -> (out: String)
        ensures
            out@ == socket_text(*self),
    {
        let mut out = String::new();
        if self.ip.is_ipv4() {
            text::push_text(&mut out, self.ip.to_text().as_str());
        } else {
            out.push('[');
            text::push_text(&mut out, self.ip.to_text().as_str());
            if self.scope_id != 0 {
                out.push('%');
                text::push_decimal(&mut out, self.scope_id as u64);
            }
            out.push(']');
        }
        out.push(':');
        text::push_decimal(&mut out, self.port as u64);
        assert(out@ =~= socket_text(*self));
        out
    }
}

/// The address and port that a text writes, if it writes both.
pub uninterp spec fn socket_of_text(s: Seq<char>) -> Option<(IpAddr, u16)>;

/// `FromStr` of the standard library's socket address, as a field of
/// `trust_dns_resolver`'s `NameServerConfig` holds it: its address and its port.
/// Which texts write which address is not stated here.
#[verifier::external_body]
pub(crate) fn parse_socket(s: &str) -> (addr: Option<(IpAddr, u16)>)
    ensures
        addr == socket_of_text(s@),
{
    let addr = NameServerConfig::new(s.parse().ok()?, Protocol::Udp).socket_addr;
    let port = addr.port();
    match RData::from(addr.ip()) {
        RData::A(a) => Some((IpAddr::V4(u32::from(a.0)), port)),
        RData::AAAA(a) => Some((IpAddr::V6(u128::from(a.0)), port)),
        _ => None,
    }
}

} // verus!
