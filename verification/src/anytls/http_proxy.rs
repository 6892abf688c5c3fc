//! The local HTTP proxy: CONNECT tunnels and forwarded requests.
//!
//! A [`HeaderReader`] collects the request head, [`parse_http_request`]
//! understands it, and [`on_stream`] says what to send once the proxy stream
//! is there, or is not.
use crate::anytls::error::{protocol_error, AnyTlsError};
use crate::octets;
use crate::text;
use vstd::prelude::*;

verus! {

/// Most bytes that may arrive before the request head is complete.
pub const MAX_HEADER_SIZE: usize = 65536;

/// The bytes that end a request head.
pub open spec fn header_terminator() -> Seq<u8> {
    seq![13u8, 10, 13, 10]
}

/// Whether a request head ends at `end`: the first terminator lies before it.
pub open spec fn head_ends(buf: Seq<u8>, end: int) -> bool {
    &&& octets::occurs_at(buf, header_terminator(), end - 4)
    &&& forall|j: int| 0 <= j < end - 4 ==> !octets::occurs_at(buf, header_terminator(), j)
}

/// Whether no request head ends in `buf`.
pub open spec fn head_open(buf: Seq<u8>) -> bool {
    forall|j: int| !octets::occurs_at(buf, header_terminator(), j)
}

/// Where the request head ends: behind its first empty line.
pub fn find_header_end(buf: &[u8]) -> (end: Option<usize>)
    ensures
        match end {
            Some(e) => head_ends(buf@, e as int) && e <= buf@.len(),
            None => head_open(buf@),
        },
{
    let terminator: Vec<u8> = vec![13, 10, 13, 10];
    assert(terminator@ =~= header_terminator());
    let size: usize = buf.len();
    match octets::find_subseq(buf, terminator.as_slice()) {
        Some(pos) => {
            assert(octets::occurs_at(buf@, header_terminator(), pos as int));
            Some(pos + 4)
        },
        None => None,
    }
}

/// Collects the head of a request.
#[derive(Debug)]
pub struct HeaderReader {
    pub buf: Vec<u8>,
}

/// How far the head of a request has come.
#[derive(Debug)]
pub enum HeaderStep {
    /// Read more.
    More,
    /// The head, and what arrived behind it.
    Done { header: Vec<u8>, remaining: Vec<u8> },
    Fail(AnyTlsError),
}

impl HeaderReader {
    /// A reader to which nothing has arrived.
    pub fn new() -> (r: Self)
        ensures
            r.buf@.len() == 0,
    {
        HeaderReader { buf: Vec::new() }
    }

    /// Takes what arrived; nothing means that the client closed the
    /// connection.
    pub fn on_data(&mut self, chunk: &[u8]) -> (step: HeaderStep)
        ensures
            final(self).buf@ == old(self).buf@ + chunk@,
            if chunk@.len() == 0 {
                step matches HeaderStep::Fail(e) && e.is_protocol(
                    "Connection closed before HTTP header complete"@,
                )
            } else if final(self).buf@.len() > MAX_HEADER_SIZE {
                step matches HeaderStep::Fail(e) && e.is_protocol("HTTP header too large"@)
            } else {
                match step {
                    HeaderStep::Done { header, remaining } => head_ends(
                        final(self).buf@,
                        header@.len() as int,
                    ) && header@ + remaining@ == final(self).buf@,
                    HeaderStep::More => head_open(final(self).buf@),
                    HeaderStep::Fail(_) => false,
                }
            },
    {
        let ghost before = self.buf@;
        octets::append(&mut self.buf, chunk);
        if chunk.len() == 0 {
            return HeaderStep::Fail(
                protocol_error("Connection closed before HTTP header complete"),
            );
        }
        if self.buf.len() > MAX_HEADER_SIZE {
            return HeaderStep::Fail(protocol_error("HTTP header too large"));
        }
        match find_header_end(self.buf.as_slice()) {
            Some(end) => {
                let total: usize = self.buf.len();
                let header = octets::copy_range(self.buf.as_slice(), 0, end);
                let remaining = octets::copy_range(self.buf.as_slice(), end, total);
                assert(header@ + remaining@ =~= self.buf@);
                HeaderStep::Done { header, remaining }
            },
            None => HeaderStep::More,
        }
    }
}

// ---------------------------------------------------------------------------
// The request
// ---------------------------------------------------------------------------

/// A request, understood.
#[derive(Debug)]
pub struct ParsedRequest {
    pub method: String,
    pub version: String,
    pub host: String,
    pub port: u16,
    pub path: String,
    pub is_connect: bool,
    pub headers: Vec<String>,
    pub body: Vec<u8>,
}

/// A text without white space and then without square brackets at its ends.
pub open spec fn bare_host(s: Seq<char>) -> Seq<char> {
    text::trim_char_of(text::trim_char_of(text::trim_of(s), '['), ']')
}

/// The host and the port of a text. A port stands behind the last colon; an
/// IPv6 address without brackets is taken as a host, and so is whatever has no
/// port that can be read.
pub open spec fn host_port(value: Seq<char>, default_port: u16) -> (Seq<char>, u16) {
    let idx = text::last_of(value, ':');
    if 0 <= idx < value.len() {
        if value.take(idx).contains(':') && !value.contains(']') {
            (value, default_port)
        } else {
            match text::number_of(value.skip(idx + 1), 0xffff) {
                Some(port) => (bare_host(value.take(idx)), port as u16),
                None => (bare_host(value), default_port),
            }
        }
    } else {
        (bare_host(value), default_port)
    }
}

fn to_bare_host(s: &str) -> (out: String)
    ensures
        out@ == bare_host(s@),
{
    let a = text::trim(s);
    let b = text::trim_matches(a.as_str(), '[');
    text::trim_matches(b.as_str(), ']')
}

/// The host and the port of the text, see [`host_port`].
pub fn split_host_port(value: &str, default_port: u16) -> (out: (String, u16))
    ensures
        (out.0@, out.1) == host_port(value@, default_port),
{
    match text::rsplit_once(value, ':') {
        Some((host_part, port_part)) => {
            if text::contains_char(host_part.as_str(), ':') && !text::contains_char(value, ']') {
                return (value.to_owned(), default_port);
            }
            match text::parse_port(port_part.as_str()) {
                Some(port) => (to_bare_host(host_part.as_str()), port),
                None => (to_bare_host(value), default_port),
            }
        },
        None => (to_bare_host(value), default_port),
    }
}

/// The value of the first `Host` header.
pub open spec fn host_header_of(headers: Seq<Seq<char>>) -> Option<Seq<char>>
    decreases headers.len(),
{
    if headers.len() == 0 {
        None
    } else if text::has_prefix(headers[0], "Host:"@) || text::has_prefix(headers[0], "host:"@) {
        Some(text::trim_of(headers[0].skip(5)))
    } else {
        host_header_of(headers.drop_first())
    }
}

/// Where a request goes.
pub struct TargetModel {
    pub host: Seq<char>,
    pub port: u16,
    pub path: Seq<char>,
    pub is_connect: bool,
}

/// The host text, the usual port and the path of a request that is no CONNECT:
/// from an absolute target, or else from the `Host` header.
pub open spec fn plain_target(target: Seq<char>, headers: Seq<Seq<char>>) -> (
    Seq<char>,
    u16,
    Seq<char>,
) {
    let http = text::has_prefix(target, "http://"@);
    let https = text::has_prefix(target, "https://"@);
    if http || https {
        let rest = if http {
            target.skip(7)
        } else {
            target.skip(8)
        };
        let slash = text::first_of(rest, '/');
        let port = if https {
            443u16
        } else {
            80u16
        };
        if 0 <= slash < rest.len() {
            (rest.take(slash), port, rest.skip(slash))
        } else {
            (rest, port, "/"@)
        }
    } else {
        (
            match host_header_of(headers) {
                Some(h) => h,
                None => Seq::empty(),
            },
            80u16,
            target,
        )
    }
}

/// Where a request goes; nothing where no host is named.
pub open spec fn target_of(
    method: Seq<char>,
    target: Seq<char>,
    headers: Seq<Seq<char>>,
) -> Option<TargetModel> {
    if text::ascii_lower(method) == text::ascii_lower("CONNECT"@) {
        let (host, port) = host_port(target, 443);
        Some(TargetModel { host, port, path: Seq::empty(), is_connect: true })
    } else {
        let (host, usual, path) = plain_target(target, headers);
        if host.len() == 0 {
            None
        } else {
            let (bare, port) = host_port(host, usual);
            Some(
                TargetModel {
                    host: bare,
                    port,
                    path: if path.len() > 0 && (path[0] == '/' || path[0] == '*') {
                        path
                    } else {
                        seq!['/'] + path
                    },
                    is_connect: false,
                },
            )
        }
    }
}

fn find_host_header(headers: &Vec<String>) -> (out: Option<String>)
    ensures
        match out {
            Some(h) => host_header_of(text::texts(headers@)) == Some(h@),
            None => host_header_of(text::texts(headers@)) is None,
        },
{
    let ghost all = text::texts(headers@);
    let mut i: usize = 0;
    assert(all.skip(0) =~= all);
    while i < headers.len()
        invariant
            i <= headers@.len(),
            all == text::texts(headers@),
            host_header_of(all) == host_header_of(all.skip(i as int)),
        decreases headers@.len() - i,
    {
        assert(all.skip(i as int)[0] == headers@[i as int]@);
        assert(all.skip(i as int).drop_first() =~= all.skip(i + 1));
        assert("Host:"@.len() == 5 && "host:"@.len() == 5) by {
            reveal_strlit("Host:");
            reveal_strlit("host:");
        }
        if let Some(rest) = text::strip_prefix(headers[i].as_str(), "Host:") {
            return Some(text::trim(rest.as_str()));
        }
        if let Some(rest) = text::strip_prefix(headers[i].as_str(), "host:") {
            return Some(text::trim(rest.as_str()));
        }
        i += 1;
    }
    None
}

/// Host, port, path and whether it is a CONNECT.
pub type Target = (String, u16, String, bool);

/// Where the request goes. It is an error when no host is named.
pub fn determine_target(method: &str, target: &str, headers: &Vec<String>) -> (r: Result<
    Target,
    AnyTlsError,
>)
    ensures
        match target_of(method@, target@, text::texts(headers@)) {
            Some(t) => r matches Ok(o) && o.0@ == t.host && o.1 == t.port && o.2@ == t.path && o.3
                == t.is_connect,
            None => r matches Err(e) && e.is_protocol("Host header missing for HTTP request"@),
        },
{
    if text::same_ignoring_case(method, "CONNECT") {
        let (host, port) = split_host_port(target, 443);
        return Ok((host, port, String::new(), true));
    }
    assert("http://"@.len() == 7 && "https://"@.len() == 8 && "/"@.len() == 1) by {
        reveal_strlit("http://");
        reveal_strlit("https://");
        reveal_strlit("/");
    }
    let http = text::strip_prefix(target, "http://");
    let https = text::strip_prefix(target, "https://");
    let is_https = https.is_some();
    let without_scheme: Option<String> = match http {
        Some(rest) => Some(rest),
        None => https,
    };
    let (host, usual, path): (String, u16, String) = match without_scheme {
        Some(rest) => {
            let port: u16 = if is_https {
                443
            } else {
                80
            };
            let chars = text::chars_of(rest.as_str());
            let n: usize = chars.len();
            let slash = text::find_char(&chars, 0, n, '/');
            assert(chars@.subrange(0, n as int) =~= rest@);
            if slash < n {
                let h = text::sub_text(&chars, 0, slash);
                let p = text::sub_text(&chars, slash, n);
                assert(h@ =~= rest@.take(slash as int));
                assert(p@ =~= rest@.skip(slash as int));
                (h, port, p)
            } else {
                (rest, port, "/".to_owned())
            }
        },
        None => {
            let h = match find_host_header(headers) {
                Some(h) => h,
                None => String::new(),
            };
            (h, 80, target.to_owned())
        },
    };
    assert((host@, usual, path@) == plain_target(target@, text::texts(headers@)));
    if host.as_str().is_empty() {
        return Err(protocol_error("Host header missing for HTTP request"));
    }
    let (host_only, port_resolved) = split_host_port(host.as_str(), usual);
    let chars = text::chars_of(path.as_str());
    let rooted = chars.len() > 0 && (chars[0] == '/' || chars[0] == '*');
    let full_path = if rooted {
        path
    } else {
        let full = text::join2("/", path.as_str());
        assert("/"@ =~= seq!['/']) by {
            reveal_strlit("/");
        }
        full
    };
    Ok((host_only, port_resolved, full_path, false))
}

/// The pieces of a head behind its request line that are not empty.
pub open spec fn header_lines(pieces: Seq<Seq<char>>) -> Seq<Seq<char>> {
    pieces.drop_first().filter(|l: Seq<char>| l.len() > 0)
}

/// Whether a request is the one that a head describes.
pub open spec fn describes(header: Seq<char>, body: Seq<u8>, r: ParsedRequest) -> bool {
    let pieces = text::split_crlf_of(header);
    let words = text::words_of(pieces[0]);
    let lines = header_lines(pieces);
    &&& words.len() >= 2
    &&& r.method@ == words[0]
    &&& r.version@ == if words.len() >= 3 {
        words[2]
    } else {
        "HTTP/1.1"@
    }
    &&& text::texts(r.headers@) == lines
    &&& r.body@ == body
    &&& target_of(words[0], words[1], lines) matches Some(t) && r.host@ == t.host && r.port
        == t.port && r.path@ == t.path && r.is_connect == t.is_connect
}

/// Understands the head of a request. It is an error when the request line
/// lacks a method or a target, and when no host is named.
pub fn parse_http_request(header: &str, body: Vec<u8>) -> (r: Result<ParsedRequest, AnyTlsError>)
    ensures
        ({
            let pieces = text::split_crlf_of(header@);
            let words = text::words_of(pieces[0]);
            match r {
                Ok(q) => describes(header@, body@, q),
                Err(e) => if words.len() < 2 {
                    e.is_protocol("Invalid HTTP request line"@)
                } else {
                    target_of(words[0], words[1], header_lines(pieces)) is None && e.is_protocol(
                        "Host header missing for HTTP request"@,
                    )
                },
            }
        }),
{
    let pieces = text::split_crlf(header);
    let ghost all = text::texts(pieces@);
    assert(all == text::split_crlf_of(header@));
    if pieces.len() == 0 {
        assert(all.len() > 0);
        return Err(protocol_error("Missing HTTP request line"));
    }
    assert(all[0] == pieces@[0]@);
    let words = text::split_whitespace(pieces[0].as_str());
    let ghost w = text::texts(words@);
    assert(w == text::words_of(all[0]));
    if words.len() < 2 {
        return Err(protocol_error("Invalid HTTP request line"));
    }
    assert(w[0] == words@[0]@ && w[1] == words@[1]@);
    let version = if words.len() >= 3 {
        assert(w[2] == words@[2]@);
        words[2].clone()
    } else {
        "HTTP/1.1".to_owned()
    };
    let ghost keep = |l: Seq<char>| l.len() > 0;
    let ghost rest = all.drop_first();
    let mut headers: Vec<String> = Vec::new();
    let mut i: usize = 1;
    assert(text::texts(headers@) =~= rest.take(0).filter(keep)) by {
        reveal(Seq::filter);
        assert(rest.take(0) =~= Seq::empty());
    }
    while i < pieces.len()
        invariant
            1 <= i <= pieces@.len(),
            all == text::texts(pieces@),
            rest == all.drop_first(),
            keep == (|l: Seq<char>| l.len() > 0),
            text::texts(headers@) == rest.take(i - 1).filter(keep),
        decreases pieces@.len() - i,
    {
        let ghost before = headers@;
        proof {
            assert(rest[i - 1] == pieces@[i as int]@);
            assert(rest.take(i as int) =~= rest.take(i - 1).push(rest[i - 1]));
            rest.take(i - 1).lemma_filter_push(rest[i - 1], keep);
        }
        if !pieces[i].as_str().is_empty() {
            headers.push(pieces[i].clone());
            assert(text::texts(headers@) =~= text::texts(before).push(pieces@[i as int]@));
        }
        i += 1;
    }
    assert(rest.take(i - 1) =~= rest);
    let (host, port, path, is_connect) = match determine_target(
        words[0].as_str(),
        words[1].as_str(),
        &headers,
    ) {
        Ok(t) => t,
        Err(e) => {
            return Err(e);
        },
    };
    Ok(
        ParsedRequest {
            method: words[0].clone(),
            version,
            host,
            port,
            path,
            is_connect,
            headers,
            body,
        },
    )
}

/// Understands the bytes of a request head; they have to be UTF-8.
pub fn read_request(header: &[u8], body: Vec<u8>) -> (r: Result<ParsedRequest, AnyTlsError>)
    ensures
        if vstd::utf8::valid_utf8(header@) {
            let head = vstd::utf8::decode_utf8(header@);
            let pieces = text::split_crlf_of(head);
            let words = text::words_of(pieces[0]);
            match r {
                Ok(q) => describes(head, body@, q),
                Err(e) => if words.len() < 2 {
                    e.is_protocol("Invalid HTTP request line"@)
                } else {
                    target_of(words[0], words[1], header_lines(pieces)) is None && e.is_protocol(
                        "Host header missing for HTTP request"@,
                    )
                },
            }
        } else {
            r matches Err(e) && e.is_protocol(
                "Invalid HTTP header encoding: "@ + text::utf8_fault(header@),
            )
        },
{
    match text::from_utf8(header) {
        Some(head) => parse_http_request(head.as_str(), body),
        None => {
            let detail = text::utf8_fault_text(header);
            Err(
                AnyTlsError::Protocol(
                    text::join2("Invalid HTTP header encoding: ", detail.as_str()),
                ),
            )
        },
    }
}

// ---------------------------------------------------------------------------
// Forwarding
// ---------------------------------------------------------------------------

/// The `Host` line of a forwarded request.
pub open spec fn host_line(host: Seq<char>, port: u16) -> Seq<char> {
    "Host: "@ + host + (if port == 80 || port == 443 {
        Seq::empty()
    } else {
        ":"@ + text::decimal(port as nat)
    }) + "\r\n"@
}

/// Whether a header line is a `Host` header.
pub open spec fn is_host_line(line: Seq<char>) -> bool {
    text::has_prefix(text::ascii_lower(line), "host:"@)
}

/// The header lines of a forwarded request: `Host` headers are rewritten, empty
/// lines are left out.
pub open spec fn forwarded_lines(
    headers: Seq<Seq<char>>,
    host: Seq<char>,
    port: u16,
) -> Seq<char>
    decreases headers.len(),
{
    if headers.len() == 0 {
        Seq::empty()
    } else {
        let before = forwarded_lines(headers.drop_last(), host, port);
        let line = headers.last();
        if line.len() == 0 {
            before
        } else if is_host_line(line) {
            before + host_line(host, port)
        } else {
            before + (line + "\r\n"@)
        }
    }
}

/// Whether one of the header lines is a `Host` header.
pub open spec fn has_host_line(headers: Seq<Seq<char>>) -> bool {
    exists|i: int| 0 <= i < headers.len() && is_host_line(#[trigger] headers[i])
}

/// The head of a forwarded request: the request line, the headers with the
/// `Host` header rewritten or added, and an empty line.
pub open spec fn forward_head(
    method: Seq<char>,
    path: Seq<char>,
    version: Seq<char>,
    headers: Seq<Seq<char>>,
    host: Seq<char>,
    port: u16,
) -> Seq<char> {
    method + " "@ + (if path.len() == 0 {
        "/"@
    } else {
        path
    }) + " "@ + version + "\r\n"@ + forwarded_lines(headers, host, port) + (if has_host_line(
        headers,
    ) {
        Seq::empty()
    } else {
        host_line(host, port)
    }) + "\r\n"@
}

fn push_host_line(out: &mut String, host: &str, port: u16)
    ensures
        final(out)@ == old(out)@ + host_line(host@, port),
{
    let ghost before = out@;
    text::push_text(out, "Host: ");
    text::push_text(out, host);
    if port != 80 && port != 443 {
        text::push_text(out, ":");
        text::push_decimal(out, port as u64);
    }
    text::push_text(out, "\r\n");
    assert(out@ =~= before + host_line(host@, port));
}

/// The head of the forwarded request.
pub fn build_forward_request(req: &ParsedRequest) -> (out: Vec<u8>)
    ensures
        out@ == vstd::utf8::encode_utf8(
            forward_head(
                req.method@,
                req.path@,
                req.version@,
                text::texts(req.headers@),
                req.host@,
                req.port,
            ),
        ),
{
    let ghost headers = text::texts(req.headers@);
    let mut out = String::new();
    text::push_text(&mut out, req.method.as_str());
    text::push_text(&mut out, " ");
    if req.path.as_str().is_empty() {
        text::push_text(&mut out, "/");
    } else {
        text::push_text(&mut out, req.path.as_str());
    }
    text::push_text(&mut out, " ");
    text::push_text(&mut out, req.version.as_str());
    text::push_text(&mut out, "\r\n");
    let ghost line = out@;
    let mut host_written = false;
    let mut i: usize = 0;
    assert("host:"@.len() == 5) by {
        reveal_strlit("host:");
    }
    assert(out@ =~= line + forwarded_lines(headers.take(0), req.host@, req.port));
    while i < req.headers.len()
        invariant
            i <= req.headers@.len(),
            headers == text::texts(req.headers@),
            "host:"@.len() == 5,
            out@ == line + forwarded_lines(headers.take(i as int), req.host@, req.port),
            host_written == has_host_line(headers.take(i as int)),
        decreases req.headers@.len() - i,
    {
        let header = &req.headers[i];
        let ghost done = headers.take(i as int);
        let ghost next = headers.take(i + 1);
        proof {
            assert(next.drop_last() =~= done);
            assert(next.last() == header@);
            assert(has_host_line(next) == (has_host_line(done) || is_host_line(header@))) by {
                if has_host_line(done) {
                    let j = choose|j: int| 0 <= j < done.len() && is_host_line(#[trigger] done[j]);
                    assert(is_host_line(next[j]));
                }
                if is_host_line(header@) {
                    assert(is_host_line(next[i as int]));
                }
                if has_host_line(next) {
                    let j = choose|j: int| 0 <= j < next.len() && is_host_line(#[trigger] next[j]);
                    if j < i {
                        assert(is_host_line(done[j]));
                    }
                }
            }
        }
        if !header.as_str().is_empty() {
            let lower = text::to_ascii_lowercase(header.as_str());
            if text::starts_with(lower.as_str(), "host:") {
                host_written = true;
                push_host_line(&mut out, req.host.as_str(), req.port);
            } else {
                text::push_text(&mut out, header.as_str());
                text::push_text(&mut out, "\r\n");
            }
        } else {
            assert(text::ascii_lower(header@).len() == 0);
        }
        assert(out@ =~= line + forwarded_lines(next, req.host@, req.port));
        i += 1;
    }
    assert(headers.take(i as int) =~= headers);
    if !host_written {
        push_host_line(&mut out, req.host.as_str(), req.port);
    }
    text::push_text(&mut out, "\r\n");
    assert(out@ =~= forward_head(
        req.method@,
        req.path@,
        req.version@,
        headers,
        req.host@,
        req.port,
    ));
    octets::of_text(out.as_str())
}

/// The answer to a CONNECT whose tunnel is there.
pub open spec fn connect_success() -> Seq<char> {
    "HTTP/1.1 200 Connection Established\r\n\r\n"@
}

/// The answer to a request that cannot be served.
pub open spec fn error_reply(code: u16, message: Seq<char>) -> Seq<char> {
    "HTTP/1.1 "@ + text::decimal(code as nat) + " "@ + message
        + "\r\nContent-Length: 0\r\nConnection: close\r\n\r\n"@
}

/// The answer to a CONNECT whose tunnel is there.
pub fn send_connect_success() -> (out: Vec<u8>)
    ensures
        out@ == vstd::utf8::encode_utf8(connect_success()),
{
    octets::of_text("HTTP/1.1 200 Connection Established\r\n\r\n")
}

/// The answer to a request that cannot be served.
pub fn send_http_error(code: u16, message: &str) -> (out: Vec<u8>)
    ensures
        out@ == vstd::utf8::encode_utf8(error_reply(code, message@)),
{
    let mut out = String::new();
    text::push_text(&mut out, "HTTP/1.1 ");
    text::push_decimal(&mut out, code as u64);
    text::push_text(&mut out, " ");
    text::push_text(&mut out, message);
    text::push_text(&mut out, "\r\nContent-Length: 0\r\nConnection: close\r\n\r\n");
    assert(out@ =~= error_reply(code, message@));
    octets::of_text(out.as_str())
}

/// What to do once the proxy stream is there, or is not.
#[derive(Debug)]
pub enum StreamStep {
    /// Send this to the client, these frames to the proxy stream, and relay.
    Relay { to_client: Vec<u8>, to_proxy: Vec<Vec<u8>> },
    /// Send this to the client and close.
    Fail { to_client: Vec<u8>, error: AnyTlsError },
}

/// Says what to do once the proxy stream is there, or is not. A CONNECT is
/// answered by the proxy itself; any other request is forwarded, its body in a
/// frame of its own where it has one. Without a stream the client gets a 502.
pub fn on_stream(req: &ParsedRequest, opened: Result<(), AnyTlsError>) -> (step: StreamStep)
    ensures
        match opened {
            Err(e) => step matches StreamStep::Fail { to_client, error } && to_client@
                == vstd::utf8::encode_utf8(error_reply(502, "Bad Gateway"@)) && error == e,
            Ok(_) => if req.is_connect {
                step matches StreamStep::Relay { to_client, to_proxy } && to_client@
                    == vstd::utf8::encode_utf8(connect_success()) && to_proxy@.len() == 0
            } else {
                step matches StreamStep::Relay { to_client, to_proxy } && {
                    &&& to_client@.len() == 0
                    &&& to_proxy@.len() == if req.body@.len() == 0 {
                        1nat
                    } else {
                        2nat
                    }
                    &&& to_proxy@[0]@ == vstd::utf8::encode_utf8(
                        forward_head(
                            req.method@,
                            req.path@,
                            req.version@,
                            text::texts(req.headers@),
                            req.host@,
                            req.port,
                        ),
                    )
                    &&& req.body@.len() > 0 ==> to_proxy@[1]@ == req.body@
                }
            },
        },
{
    match opened {
        Err(error) => StreamStep::Fail { to_client: send_http_error(502, "Bad Gateway"), error },
        Ok(_) => {
            let mut to_proxy: Vec<Vec<u8>> = Vec::new();
            if req.is_connect {
                StreamStep::Relay { to_client: send_connect_success(), to_proxy }
            } else {
                to_proxy.push(build_forward_request(req));
                if req.body.len() > 0 {
                    to_proxy.push(octets::copy(req.body.as_slice()));
                }
                StreamStep::Relay { to_client: Vec::new(), to_proxy }
            }
        },
    }
}

} // verus!
