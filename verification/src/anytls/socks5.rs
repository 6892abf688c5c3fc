//! The local SOCKS5 server (RFC 1928): greeting, connection request, replies
//! and the order in which they happen.
//!
//! A [`Socks5Session`] is told what arrived and how the proxy stream turned
//! out; it says what to send and what to do next.
use crate::anytls::error::{io_error, protocol_error, AnyTlsError, ErrorKind};
use crate::net;
use crate::net::IpAddr;
use crate::octets;
use crate::text;
use vstd::prelude::*;

verus! {

/// The protocol version.
pub const SOCKS5_VERSION: u8 = 5;

/// The method without authentication.
pub const AUTH_NO_AUTHENTICATION: u8 = 0;

/// The answer to a client that offers no acceptable method.
pub const AUTH_NOT_ACCEPTABLE: u8 = 0xff;

/// The address type of an IPv4 address.
pub const ATYP_IPV4: u8 = 1;

/// The address type of a domain name.
pub const ATYP_DOMAIN: u8 = 3;

/// The address type of an IPv6 address.
pub const ATYP_IPV6: u8 = 4;

/// The reply of a connection that was made.
pub const REPLY_SUCCEEDED: u8 = 0;

/// The reply of a connection that could not be made.
pub const REPLY_GENERAL_FAILURE: u8 = 1;

/// The destination of a connection.
#[derive(Debug)]
pub struct Socks5Addr {
    pub addr: String,
    pub port: u16,
}

// ---------------------------------------------------------------------------
// Parsing
// ---------------------------------------------------------------------------

/// What a greeting says, as far as it has arrived: the version, the number of
/// methods, and the methods.
pub enum GreetingModel {
    Incomplete,
    BadVersion(u8),
    NoMethods,
    /// No acceptable method is offered.
    Refused,
    /// The method without authentication is offered; the greeting has this
    /// many bytes.
    Accepted(int),
}

/// What a greeting says.
pub open spec fn greeting_of(b: Seq<u8>) -> GreetingModel {
    if b.len() < 2 {
        GreetingModel::Incomplete
    } else if b[0] != SOCKS5_VERSION {
        GreetingModel::BadVersion(b[0])
    } else if b[1] == 0 {
        GreetingModel::NoMethods
    } else if b.len() < 2 + b[1] {
        GreetingModel::Incomplete
    } else if b.subrange(2, 2 + b[1]).contains(AUTH_NO_AUTHENTICATION) {
        GreetingModel::Accepted(2 + b[1])
    } else {
        GreetingModel::Refused
    }
}

/// A greeting, see [`GreetingModel`].
#[derive(Clone, Copy, Debug)]
pub enum Greeting {
    Incomplete,
    BadVersion(u8),
    NoMethods,
    Refused,
    Accepted(usize),
}

impl View for Greeting {
    type V = GreetingModel;

    open spec fn view(&self) -> GreetingModel {
        match self {
            Greeting::Incomplete => GreetingModel::Incomplete,
            Greeting::BadVersion(v) => GreetingModel::BadVersion(*v),
            Greeting::NoMethods => GreetingModel::NoMethods,
            Greeting::Refused => GreetingModel::Refused,
            Greeting::Accepted(n) => GreetingModel::Accepted(*n as int),
        }
    }
}

/// Reads the client's greeting.
pub fn authenticate(received: &[u8]) -> (g: Greeting)
    ensures
        g@ == greeting_of(received@),
{
    if received.len() < 2 {
        return Greeting::Incomplete;
    }
    if received[0] != SOCKS5_VERSION {
        return Greeting::BadVersion(received[0]);
    }
    let nmethods: usize = received[1] as usize;
    if nmethods == 0 {
        return Greeting::NoMethods;
    }
    if received.len() < 2 + nmethods {
        return Greeting::Incomplete;
    }
    let ghost methods = received@.subrange(2, 2 + nmethods);
    let mut i: usize = 0;
    while i < nmethods
        invariant
            i <= nmethods,
            2 + nmethods <= received.len(),
            nmethods <= 255,
            methods == received@.subrange(2, 2 + nmethods),
            forall|j: int| 0 <= j < i ==> #[trigger] methods[j] != AUTH_NO_AUTHENTICATION,
            received@[1] == nmethods,
            received@[0] == SOCKS5_VERSION,
            nmethods > 0,
        decreases nmethods - i,
    {
        assert(methods[i as int] == received@[2 + i]);
        if received[2 + i] == AUTH_NO_AUTHENTICATION {
            assert(methods.contains(AUTH_NO_AUTHENTICATION));
            return Greeting::Accepted(2 + nmethods);
        }
        i += 1;
    }
    Greeting::Refused
}

/// What a connection request says, as far as it has arrived: the version, the
/// command, a reserved byte, the address type, the address and the port.
pub enum RequestModel {
    Incomplete,
    BadVersion(u8),
    UnsupportedAddress(u8),
    EmptyDomain,
    /// The domain is not UTF-8.
    BadDomain(Seq<u8>),
    /// The destination, the command, and the request's length.
    Complete { addr: Seq<char>, port: u16, cmd: u8, len: int },
}

/// The number that some bytes write, most significant first.
pub open spec fn be_value(b: Seq<u8>) -> nat
    decreases b.len(),
{
    if b.len() == 0 {
        0
    } else {
        be_value(b.drop_last()) * 256 + b.last() as nat
    }
}

/// What a request with its address text and the bytes before its port says.
pub open spec fn request_port(b: Seq<u8>, addr: Seq<char>, at: int) -> RequestModel {
    if b.len() < at + 2 {
        RequestModel::Incomplete
    } else {
        RequestModel::Complete {
            addr,
            port: octets::be16(b[at], b[at + 1]),
            cmd: b[1],
            len: at + 2,
        }
    }
}

/// What a connection request says.
pub open spec fn request_of(b: Seq<u8>) -> RequestModel {
    if b.len() < 4 {
        RequestModel::Incomplete
    } else if b[0] != SOCKS5_VERSION {
        RequestModel::BadVersion(b[0])
    } else if b[3] == ATYP_IPV4 {
        if b.len() < 8 {
            RequestModel::Incomplete
        } else {
            request_port(b, net::ip_text(IpAddr::V4(be_value(b.subrange(4, 8)) as u32)), 8)
        }
    } else if b[3] == ATYP_DOMAIN {
        if b.len() < 5 {
            RequestModel::Incomplete
        } else if b[4] == 0 {
            RequestModel::EmptyDomain
        } else if b.len() < 5 + b[4] {
            RequestModel::Incomplete
        } else {
            let domain = b.subrange(5, 5 + b[4]);
            if vstd::utf8::valid_utf8(domain) {
                request_port(b, vstd::utf8::decode_utf8(domain), 5 + b[4])
            } else {
                RequestModel::BadDomain(domain)
            }
        }
    } else if b[3] == ATYP_IPV6 {
        if b.len() < 20 {
            RequestModel::Incomplete
        } else {
            request_port(b, net::ip_text(IpAddr::V6(be_value(b.subrange(4, 20)) as u128)), 20)
        }
    } else {
        RequestModel::UnsupportedAddress(b[3])
    }
}

/// A connection request, see [`RequestModel`].
#[derive(Debug)]
pub enum Request {
    Incomplete,
    BadVersion(u8),
    UnsupportedAddress(u8),
    EmptyDomain,
    BadDomain(Vec<u8>),
    Complete { dest: Socks5Addr, cmd: u8, len: usize },
}

impl View for Request {
    type V = RequestModel;

    open spec fn view(&self) -> RequestModel {
        match self {
            Request::Incomplete => RequestModel::Incomplete,
            Request::BadVersion(v) => RequestModel::BadVersion(*v),
            Request::UnsupportedAddress(t) => RequestModel::UnsupportedAddress(*t),
            Request::EmptyDomain => RequestModel::EmptyDomain,
            Request::BadDomain(d) => RequestModel::BadDomain(d@),
            Request::Complete { dest, cmd, len } => RequestModel::Complete {
                addr: dest.addr@,
                port: dest.port,
                cmd: *cmd,
                len: *len as int,
            },
        }
    }
}

proof fn lemma_be_value_bound(b: Seq<u8>)
    ensures
        be_value(b) < vstd::arithmetic::power2::pow2(8 * b.len()),
    decreases b.len(),
{
    vstd::arithmetic::power2::lemma2_to64();
    if b.len() > 0 {
        lemma_be_value_bound(b.drop_last());
        vstd::arithmetic::power2::lemma_pow2_adds(8 * (b.len() - 1) as nat, 8);
        assert(8 * (b.len() - 1) as nat + 8 == 8 * b.len());
    }
}

/// Reads up to sixteen bytes as a number, most significant first.
pub fn read_be(bytes: &[u8], from: usize, len: usize) -> (n: u128)
    requires
        from + len <= bytes@.len(),
        len <= 16,
    ensures
        n == be_value(bytes@.subrange(from as int, from + len)),
{
    let mut n: u128 = 0;
    let mut i: usize = 0;
    let ghost part = bytes@.subrange(from as int, from + len);
    assert(part.take(0) =~= Seq::empty());
    while i < len
        invariant
            i <= len,
            len <= 16,
            from + len <= bytes.len(),
            part == bytes@.subrange(from as int, from + len),
            n == be_value(part.take(i as int)),
        decreases len - i,
    {
        proof {
            assert(part.take(i + 1).drop_last() =~= part.take(i as int));
            lemma_be_value_bound(part.take(i + 1));
            vstd::arithmetic::power2::lemma2_to64();
            if i + 1 < 16 {
                vstd::arithmetic::power2::lemma_pow2_strictly_increases(8 * (i + 1) as nat, 128);
            }
            vstd::arithmetic::power2::lemma_pow2_adds(64, 64);
            assert(0x1_0000_0000_0000_0000 * 0x1_0000_0000_0000_0000
                == 0x1_0000_0000_0000_0000_0000_0000_0000_0000int) by (nonlinear_arith);
        }
        n = n * 256 + bytes[from + i] as u128;
        i += 1;
    }
    assert(part.take(i as int) =~= part);
    n
}

fn finish_request(received: &[u8], addr: String, at: usize) -> (r: Request)
    requires
        4 <= at <= 300,
        received@.len() >= 4,
    ensures
        r@ == request_port(received@, addr@, at as int),
{
    if received.len() < at + 2 {
        return Request::Incomplete;
    }
    let port: u16 = octets::read_be16(received[at], received[at + 1]);
    Request::Complete { dest: Socks5Addr { addr, port }, cmd: received[1], len: at + 2 }
}

/// Reads the client's connection request.
pub fn read_connection_request(received: &[u8]) -> (r: Request)
    ensures
        r@ == request_of(received@),
{
    if received.len() < 4 {
        return Request::Incomplete;
    }
    if received[0] != SOCKS5_VERSION {
        return Request::BadVersion(received[0]);
    }
    let atyp: u8 = received[3];
    if atyp == ATYP_IPV4 {
        if received.len() < 8 {
            return Request::Incomplete;
        }
        let bits: u128 = read_be(received, 4, 4);
        proof {
            lemma_be_value_bound(received@.subrange(4, 8));
            vstd::arithmetic::power2::lemma2_to64();
        }
        finish_request(received, IpAddr::V4(bits as u32).to_text(), 8)
    } else if atyp == ATYP_DOMAIN {
        if received.len() < 5 {
            return Request::Incomplete;
        }
        let domain_len: usize = received[4] as usize;
        if domain_len == 0 {
            return Request::EmptyDomain;
        }
        if received.len() < 5 + domain_len {
            return Request::Incomplete;
        }
        let domain = octets::copy_range(received, 5, 5 + domain_len);
        match text::from_utf8(domain.as_slice()) {
            Some(name) => finish_request(received, name, 5 + domain_len),
            None => Request::BadDomain(domain),
        }
    } else if atyp == ATYP_IPV6 {
        if received.len() < 20 {
            return Request::Incomplete;
        }
        let bits: u128 = read_be(received, 4, 16);
        finish_request(received, IpAddr::V6(bits).to_text(), 20)
    } else {
        Request::UnsupportedAddress(atyp)
    }
}

/// A reply to a connection request; the bound address is given as 0.0.0.0:0.
pub open spec fn reply_bytes(reply: u8) -> Seq<u8> {
    seq![SOCKS5_VERSION, reply, 0, ATYP_IPV4, 0, 0, 0, 0, 0, 0]
}

/// The reply to a connection request.
pub fn connection_reply(reply: u8) -> (out: Vec<u8>)
    ensures
        out@ == reply_bytes(reply),
{
    let out: Vec<u8> = vec![SOCKS5_VERSION, reply, 0, ATYP_IPV4, 0, 0, 0, 0, 0, 0];
    assert(out@ =~= reply_bytes(reply));
    out
}

// ---------------------------------------------------------------------------
// The session
// ---------------------------------------------------------------------------

/// How far a connection has come.
#[derive(Clone, Copy, Debug, PartialEq, Eq, Structural)]
pub enum Phase {
    /// Waiting for the greeting.
    Greeting,
    /// Waiting for the connection request.
    Request,
    /// Waiting for the proxy stream.
    Connecting,
    /// Forwarding data both ways.
    Relaying,
    /// Over.
    Closed,
}

/// What to do next, once `send` has been sent to the client.
#[derive(Debug)]
pub enum Next {
    /// Read more from the client.
    Read,
    /// Open a proxy stream to the destination.
    Connect(Socks5Addr),
    /// Forward data both ways, starting with these bytes for the proxy stream.
    Relay(Vec<u8>),
    /// Close the connection.
    Fail(AnyTlsError),
}

/// One step of a connection: bytes for the client, then what to do.
#[derive(Debug)]
pub struct Step {
    pub send: Vec<u8>,
    pub next: Next,
}

/// One client connection.
#[derive(Debug)]
pub struct Socks5Session {
    pub phase: Phase,
    /// What arrived and was not used yet.
    pub pending: Vec<u8>,
}

/// Whether a step fails with the error that a bad greeting has.
pub open spec fn greeting_error(g: GreetingModel, e: AnyTlsError) -> bool {
    match g {
        GreetingModel::BadVersion(v) => e.is_protocol(
            "Unsupported SOCKS version: "@ + text::decimal(v as nat),
        ),
        GreetingModel::NoMethods => e.is_protocol("No authentication methods provided"@),
        GreetingModel::Refused => e.is_protocol("Client does not support NO AUTHENTICATION"@),
        _ => false,
    }
}

/// Whether a step fails with the error that a bad request has.
pub open spec fn request_error(r: RequestModel, e: AnyTlsError) -> bool {
    match r {
        RequestModel::BadVersion(v) => e.is_protocol(
            "Invalid SOCKS version: "@ + text::decimal(v as nat),
        ),
        RequestModel::UnsupportedAddress(t) => e.is_protocol(
            "Unsupported address type: 0x"@ + text::hex_byte(t),
        ),
        RequestModel::EmptyDomain => e.is_protocol("Invalid domain length"@),
        RequestModel::BadDomain(d) => e.is_protocol(
            "Invalid domain name: "@ + text::utf8_fault(d),
        ),
        _ => false,
    }
}

/// The step of a connection whose request has arrived as far as `b`.
pub open spec fn request_step(b: Seq<u8>, next: Next, s: Socks5Session) -> bool {
    match request_of(b) {
        RequestModel::Incomplete => next is Read && s.phase is Request && s.pending@ == b,
        RequestModel::Complete { addr, port, len, .. } => {
            &&& next matches Next::Connect(dest) && dest.addr@ == addr && dest.port == port
            &&& s.phase is Connecting
            &&& s.pending@ == b.skip(len)
        },
        r => (next matches Next::Fail(e) && request_error(r, e)) && s.phase is Closed,
    }
}

/// The step of a connection whose greeting has arrived as far as `b`.
pub open spec fn greeting_step(b: Seq<u8>, step: Step, s: Socks5Session) -> bool {
    match greeting_of(b) {
        GreetingModel::Incomplete => step.send@.len() == 0 && step.next is Read && s.phase
            is Greeting && s.pending@ == b,
        GreetingModel::Accepted(len) => step.send@ == seq![SOCKS5_VERSION, AUTH_NO_AUTHENTICATION]
            && request_step(b.skip(len), step.next, s),
        g => {
            &&& step.send@ == if g is Refused {
                seq![SOCKS5_VERSION, AUTH_NOT_ACCEPTABLE]
            } else {
                Seq::empty()
            }
            &&& step.next matches Next::Fail(e) && greeting_error(g, e)
            &&& s.phase is Closed
        },
    }
}

impl Socks5Session {
    /// A connection of which nothing has arrived.
    pub fn new() -> (s: Self)
        ensures
            s.phase is Greeting,
            s.pending@.len() == 0,
    {
        Socks5Session { phase: Phase::Greeting, pending: Vec::new() }
    }

    /// Looks at the request in what is pending.
    fn on_request(&mut self) -> (next: Next)
        requires
            old(self).phase is Request,
        ensures
            request_step(old(self).pending@, next, *final(self)),
    {
        let ghost b = self.pending@;
        match read_connection_request(self.pending.as_slice()) {
            Request::Incomplete => Next::Read,
            Request::Complete { dest, cmd: _, len } => {
                let total: usize = self.pending.len();
                let rest = octets::copy_range(self.pending.as_slice(), len, total);
                assert(rest@ =~= b.skip(len as int));
                self.pending = rest;
                self.phase = Phase::Connecting;
                Next::Connect(dest)
            },
            Request::BadVersion(v) => {
                self.phase = Phase::Closed;
                let mut what = "Invalid SOCKS version: ".to_owned();
                text::push_decimal(&mut what, v as u64);
                Next::Fail(AnyTlsError::Protocol(what))
            },
            Request::UnsupportedAddress(t) => {
                self.phase = Phase::Closed;
                let mut what = "Unsupported address type: 0x".to_owned();
                text::push_hex_byte(&mut what, t);
                Next::Fail(AnyTlsError::Protocol(what))
            },
            Request::EmptyDomain => {
                self.phase = Phase::Closed;
                Next::Fail(protocol_error("Invalid domain length"))
            },
            Request::BadDomain(d) => {
                self.phase = Phase::Closed;
                let detail = text::utf8_fault_text(d.as_slice());
                Next::Fail(
                    AnyTlsError::Protocol(text::join2("Invalid domain name: ", detail.as_str())),
                )
            },
        }
    }

    /// Bytes arrived from the client before the relay began.
    pub fn on_data(&mut self, data: &[u8]) -> (step: Step)
        requires
            old(self).phase is Greeting || old(self).phase is Request,
        ensures
            ({
                let b = old(self).pending@ + data@;
                if old(self).phase is Greeting {
                    greeting_step(b, step, *final(self))
                } else {
                    step.send@.len() == 0 && request_step(b, step.next, *final(self))
                }
            }),
    {
        octets::append(&mut self.pending, data);
        let ghost b = self.pending@;
        match self.phase {
            Phase::Greeting => {
                match authenticate(self.pending.as_slice()) {
                    Greeting::Incomplete => Step { send: Vec::new(), next: Next::Read },
                    Greeting::Accepted(len) => {
                        let total: usize = self.pending.len();
                        let rest = octets::copy_range(self.pending.as_slice(), len, total);
                        assert(rest@ =~= b.skip(len as int));
                        self.pending = rest;
                        self.phase = Phase::Request;
                        let send: Vec<u8> = vec![SOCKS5_VERSION, AUTH_NO_AUTHENTICATION];
                        assert(send@ =~= seq![SOCKS5_VERSION, AUTH_NO_AUTHENTICATION]);
                        Step { send, next: self.on_request() }
                    },
                    Greeting::BadVersion(v) => {
                        self.phase = Phase::Closed;
                        let mut what = "Unsupported SOCKS version: ".to_owned();
                        text::push_decimal(&mut what, v as u64);
                        Step { send: Vec::new(), next: Next::Fail(AnyTlsError::Protocol(what)) }
                    },
                    Greeting::NoMethods => {
                        self.phase = Phase::Closed;
                        Step {
                            send: Vec::new(),
                            next: Next::Fail(protocol_error("No authentication methods provided")),
                        }
                    },
                    Greeting::Refused => {
                        self.phase = Phase::Closed;
                        let send: Vec<u8> = vec![SOCKS5_VERSION, AUTH_NOT_ACCEPTABLE];
                        assert(send@ =~= seq![SOCKS5_VERSION, AUTH_NOT_ACCEPTABLE]);
                        Step {
                            send,
                            next: Next::Fail(
                                protocol_error("Client does not support NO AUTHENTICATION"),
                            ),
                        }
                    },
                }
            },
            _ => Step { send: Vec::new(), next: self.on_request() },
        }
    }

    /// The client closed the connection before the relay began.
    pub fn on_eof(&mut self) -> (step: Step)
        requires
            old(self).phase is Greeting || old(self).phase is Request,
        ensures
            final(self).phase is Closed,
            final(self).pending@ == old(self).pending@,
            step.send@.len() == 0,
            step.next matches Next::Fail(e) && e.is_io(ErrorKind::UnexpectedEof, "early eof"@),
    {
        self.phase = Phase::Closed;
        Step {
            send: Vec::new(),
            next: Next::Fail(io_error(ErrorKind::UnexpectedEof, "early eof")),
        }
    }

    /// The proxy stream was opened, or could not be opened. Either way the
    /// client is told; an opened stream is relayed to, starting with what the
    /// client has already sent.
    pub fn on_stream(&mut self, opened: Result<(), AnyTlsError>) -> (step: Step)
        requires
            old(self).phase is Connecting,
        ensures
            match opened {
                Ok(_) => {
                    &&& step.send@ == reply_bytes(REPLY_SUCCEEDED)
                    &&& step.next matches Next::Relay(first) && first@ == old(self).pending@
                    &&& final(self).phase is Relaying
                    &&& final(self).pending@.len() == 0
                },
                Err(e) => {
                    &&& step.send@ == reply_bytes(REPLY_GENERAL_FAILURE)
                    &&& step.next == Next::Fail(e)
                    &&& final(self).phase is Closed
                    &&& final(self).pending@ == old(self).pending@
                },
            },
    {
        match opened {
            Ok(_) => {
                self.phase = Phase::Relaying;
                let first = octets::copy(self.pending.as_slice());
                self.pending = Vec::new();
                Step { send: connection_reply(REPLY_SUCCEEDED), next: Next::Relay(first) }
            },
            Err(e) => {
                self.phase = Phase::Closed;
                Step { send: connection_reply(REPLY_GENERAL_FAILURE), next: Next::Fail(e) }
            },
        }
    }
}

/// What one direction of a relay does after a read into `buf`: it forwards the
/// bytes that were read, and ends at the end of the data or at an error.
pub fn relay_step(read: Result<usize, AnyTlsError>, buf: &[u8]) -> (out: Option<Vec<u8>>)
    requires
        read matches Ok(n) ==> n <= buf@.len(),
    ensures
        match read {
            Ok(n) => if n == 0 {
                out is None
            } else {
                out matches Some(d) && d@ == buf@.take(n as int)
            },
            Err(_) => out is None,
        },
{
    match read {
        Ok(n) => {
            if n == 0 {
                None
            } else {
                let d = octets::copy_range(buf, 0, n);
                assert(d@ =~= buf@.take(n as int));
                Some(d)
            }
        },
        Err(_) => None,
    }
}

/// A greeting and a request that arrive in pieces are understood as if they
/// had arrived at once: what was complete stays as it is with more behind it.
pub proof fn law_pieces(b: Seq<u8>, more: Seq<u8>)
    ensures
        !(greeting_of(b) is Incomplete) ==> greeting_of(b + more) == greeting_of(b),
        !(request_of(b) is Incomplete) ==> request_of(b + more) == request_of(b),
{
    let c = b + more;
    if b.len() >= 2 && b.len() >= 2 + b[1] {
        assert(c.subrange(2, 2 + b[1]) =~= b.subrange(2, 2 + b[1]));
    }
    if b.len() >= 8 {
        assert(c.subrange(4, 8) =~= b.subrange(4, 8));
    }
    if b.len() >= 20 {
        assert(c.subrange(4, 20) =~= b.subrange(4, 20));
    }
    if b.len() >= 5 && b.len() >= 5 + b[4] {
        assert(c.subrange(5, 5 + b[4]) =~= b.subrange(5, 5 + b[4]));
    }
}

} // verus!
