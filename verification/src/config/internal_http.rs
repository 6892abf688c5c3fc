//! A small HTTP/1.1 client that speaks through a proxy: `GET` only, one
//! connection per request, up to five redirects, the body held in memory.
use crate::common::sniff_http::{header_models, Header, HeaderModel};
use crate::config::chunked;
use crate::config::chunked::{decode_chunked, BODY_TOO_LARGE, MAX_BODY_BYTES};
use crate::octets;
use crate::text;
use vstd::prelude::*;

verus! {

/// Most redirects that are followed.
pub const MAX_REDIRECTS: u8 = 5;

/// Most headers of a response.
pub const MAX_RESPONSE_HEADERS: usize = 64;

/// How long a dial and a TLS handshake may take: 15 seconds, in nanoseconds.
pub const CONNECT_TIMEOUT: u128 = 15_000_000_000;

/// How long the reading of a response may take: 60 seconds, in nanoseconds.
pub const READ_TIMEOUT: u128 = 60_000_000_000;

/// How the client calls itself.
pub const USER_AGENT: &'static str = "clash.meta/0.1.0";

/// What a request needs of a URL.
#[derive(Debug)]
pub struct UrlParts {
    pub text: String,
    pub scheme: String,
    pub host: Option<String>,
    /// The port, or the scheme's own.
    pub port: Option<u16>,
    pub path: String,
    pub query: Option<String>,
}

/// The model of [`UrlParts`].
pub struct UrlModel {
    pub text: Seq<char>,
    pub scheme: Seq<char>,
    pub host: Option<Seq<char>>,
    pub port: Option<u16>,
    pub path: Seq<char>,
    pub query: Option<Seq<char>>,
}

impl View for UrlParts {
    type V = UrlModel;

    open spec fn view(&self) -> UrlModel {
        UrlModel {
            text: self.text@,
            scheme: self.scheme@,
            host: text::opt_text(self.host),
            port: self.port,
            path: self.path@,
            query: text::opt_text(self.query),
        }
    }
}

/// The URL that a text is, or why it is none.
pub uninterp spec fn url_of(s: Seq<char>) -> Result<UrlModel, Seq<char>>;

/// The URL that a reference means beside a URL, or why it means none.
pub uninterp spec fn url_beside(base: Seq<char>, reference: Seq<char>) -> Result<
    UrlModel,
    Seq<char>,
>;

/// Whether a result is what a model says.
pub open spec fn same_url(r: Result<UrlParts, String>, m: Result<UrlModel, Seq<char>>) -> bool {
    match r {
        Ok(u) => m == Ok::<UrlModel, Seq<char>>(u@),
        Err(e) => m == Err::<UrlModel, Seq<char>>(e@),
    }
}

/// `url`'s `Url::parse`, with the parts that its getters give. Which texts are
/// URLs is not stated here.
#[verifier::external_body]
fn parse_url(s: &str) -> (r: Result<UrlParts, String>)
    ensures
        same_url(r, url_of(s@)),
{
    let url = url::Url::parse(s).map_err(|e| e.to_string())?;
    Ok(UrlParts {
        text: url.as_str().to_owned(),
        scheme: url.scheme().to_owned(),
        host: url.host_str().map(str::to_owned),
        port: url.port_or_known_default(),
        path: url.path().to_owned(),
        query: url.query().map(str::to_owned),
    })
}

/// `url`'s `Url::join` on a URL that was written out by `as_str`. What a
/// reference means is not stated here.
#[verifier::external_body]
fn join_url(base: &str, reference: &str) -> (r: Result<UrlParts, String>)
    ensures
        same_url(r, url_beside(base@, reference@)),
{
    let base = url::Url::parse(base).map_err(|e| e.to_string())?;
    let url = base.join(reference).map_err(|e| e.to_string())?;
    Ok(UrlParts {
        text: url.as_str().to_owned(),
        scheme: url.scheme().to_owned(),
        host: url.host_str().map(str::to_owned),
        port: url.port_or_known_default(),
        path: url.path().to_owned(),
        query: url.query().map(str::to_owned),
    })
}

/// The `Host` header: the port is left out where it is the scheme's own.
pub open spec fn host_header_text(host: Seq<char>, port: u16, is_https: bool) -> Seq<char> {
    if port == (if is_https {
        443u16
    } else {
        80u16
    }) {
        host
    } else {
        host + ":"@ + text::decimal(port as nat)
    }
}

/// The `Host` header.
pub fn host_header(host: &str, port: u16, is_https: bool) -> (out: String)
    ensures
        out@ == host_header_text(host@, port, is_https),
{
    let default_port: u16 = if is_https {
        443
    } else {
        80
    };
    if port == default_port {
        host.to_owned()
    } else {
        let mut out = text::join2(host, ":");
        text::push_decimal(&mut out, port as u64);
        out
    }
}

/// One request: where it goes, and what is sent.
#[derive(Debug)]
pub struct FetchRequest {
    pub is_https: bool,
    pub host: String,
    pub port: u16,
    pub bytes: Vec<u8>,
}

/// The path and the query of a URL.
pub open spec fn path_and_query(url: UrlModel) -> Seq<char> {
    match url.query {
        Some(q) => url.path + "?"@ + q,
        None => url.path,
    }
}

/// The text of a request.
pub open spec fn request_text(url: UrlModel, host: Seq<char>, port: u16, is_https: bool) -> Seq<
    char,
> {
    "GET "@ + path_and_query(url) + " HTTP/1.1\r\nHost: "@ + host_header_text(host, port, is_https)
        + "\r\nUser-Agent: "@ + USER_AGENT@
        + "\r\nAccept: */*\r\nAccept-Encoding: identity\r\nConnection: close\r\n\r\n"@
}

/// The request for a URL, or why there is none: only `http` and `https` URLs
/// with a host and a port can be fetched.
pub open spec fn is_request_for(r: Result<FetchRequest, String>, url: UrlModel) -> bool {
    let is_https = url.scheme == "https"@;
    if !is_https && url.scheme != "http"@ {
        r matches Err(e) && e@ == "unsupported URL scheme '"@ + url.scheme + "': "@ + url.text
    } else if url.host is None {
        r matches Err(e) && e@ == "URL has no host: "@ + url.text
    } else if url.port is None {
        r matches Err(e) && e@ == "URL has no port: "@ + url.text
    } else {
        r matches Ok(req) && req.is_https == is_https && req.host@ == url.host->0 && req.port
            == url.port->0 && req.bytes@ == vstd::utf8::encode_utf8(
            request_text(url, url.host->0, url.port->0, is_https),
        )
    }
}

/// The request for a URL.
pub fn request_for(url: &UrlParts) -> (r: Result<FetchRequest, String>)
    ensures
        is_request_for(r, url@),
{
    let is_https = text::same(url.scheme.as_str(), "https");
    if !is_https && !text::same(url.scheme.as_str(), "http") {
        let mut what = text::join3("unsupported URL scheme '", url.scheme.as_str(), "': ");
        text::push_text(&mut what, url.text.as_str());
        return Err(what);
    }
    let host: &String = match &url.host {
        None => {
            return Err(text::join2("URL has no host: ", url.text.as_str()));
        },
        Some(h) => h,
    };
    let port: u16 = match url.port {
        None => {
            return Err(text::join2("URL has no port: ", url.text.as_str()));
        },
        Some(p) => p,
    };
    let mut out = text::join2("GET ", url.path.as_str());
    match &url.query {
        Some(q) => {
            text::push_text(&mut out, "?");
            text::push_text(&mut out, q.as_str());
        },
        None => {},
    }
    assert(out@ =~= "GET "@ + path_and_query(url@));
    text::push_text(&mut out, " HTTP/1.1\r\nHost: ");
    let named = host_header(host.as_str(), port, is_https);
    text::push_text(&mut out, named.as_str());
    text::push_text(&mut out, "\r\nUser-Agent: ");
    text::push_text(&mut out, USER_AGENT);
    text::push_text(
        &mut out,
        "\r\nAccept: */*\r\nAccept-Encoding: identity\r\nConnection: close\r\n\r\n",
    );
    Ok(
        FetchRequest {
            is_https,
            host: host.as_str().to_owned(),
            port,
            bytes: octets::of_text(out.as_str()),
        },
    )
}

/// What can go wrong on the way to a response.
#[derive(Debug)]
pub enum FetchFault {
    DialTimeout,
    Dial(String),
    ServerName(String),
    TlsTimeout,
    Tls(String),
    ReadTimeout,
}

impl FetchFault {
    /// What went wrong, in words.
    pub open spec fn words(self, proxy: Seq<char>, host: Seq<char>) -> Seq<char> {
        match self {
            FetchFault::DialTimeout => "dial via proxy '"@ + proxy + "' timed out after 15s"@,
            FetchFault::Dial(e) => "dial via proxy '"@ + proxy + "': "@ + e@,
            FetchFault::ServerName(e) => "invalid TLS server name '"@ + host + "': "@ + e@,
            FetchFault::TlsTimeout => "TLS handshake to "@ + host + " timed out after 15s"@,
            FetchFault::Tls(e) => "TLS handshake to "@ + host + ": "@ + e@,
            FetchFault::ReadTimeout => "response read timed out after 60s"@,
        }
    }

    /// What went wrong, in words.
    pub fn message(&self, proxy: &str, host: &str) -> (out: String)
        ensures
            out@ == self.words(proxy@, host@),
    {
        match self {
            FetchFault::DialTimeout => text::join3(
                "dial via proxy '",
                proxy,
                "' timed out after 15s",
            ),
            FetchFault::Dial(e) => {
                let mut out = text::join3("dial via proxy '", proxy, "': ");
                text::push_text(&mut out, e.as_str());
                out
            },
            FetchFault::ServerName(e) => {
                let mut out = text::join3("invalid TLS server name '", host, "': ");
                text::push_text(&mut out, e.as_str());
                out
            },
            FetchFault::TlsTimeout => text::join3(
                "TLS handshake to ",
                host,
                " timed out after 15s",
            ),
            FetchFault::Tls(e) => {
                let mut out = text::join3("TLS handshake to ", host, ": ");
                text::push_text(&mut out, e.as_str());
                out
            },
            FetchFault::ReadTimeout => "response read timed out after 60s".to_owned(),
        }
    }
}

/// Adds bytes that arrived to a response. What would grow too large is
/// refused, and the response stays as it was.
pub fn take_response_bytes(buf: &mut Vec<u8>, chunk: &[u8]) -> (r: Result<(), String>)
    ensures
        if old(buf)@.len() + chunk@.len() > MAX_BODY_BYTES {
            (r matches Err(e) && e@ == BODY_TOO_LARGE@) && final(buf)@ == old(buf)@
        } else {
            r is Ok && final(buf)@ == old(buf)@ + chunk@
        },
{
    if buf.len() > MAX_BODY_BYTES || chunk.len() > MAX_BODY_BYTES - buf.len() {
        return Err(BODY_TOO_LARGE.to_owned());
    }
    octets::append(buf, chunk);
    Ok(())
}

/// Whether a response may be read, by the length that it announces.
pub fn check_content_length(length: Option<u64>) -> (r: Result<(), String>)
    ensures
        match length {
            Some(n) if n > MAX_BODY_BYTES => r matches Err(e) && e@ == BODY_TOO_LARGE@,
            _ => r is Ok,
        },
{
    if let Some(n) = length {
        if n > MAX_BODY_BYTES as u64 {
            return Err(BODY_TOO_LARGE.to_owned());
        }
    }
    Ok(())
}

/// The text of a body.
pub fn body_text(bytes: &[u8]) -> (r: Result<String, String>)
    ensures
        if vstd::utf8::valid_utf8(bytes@) {
            r matches Ok(s) && s@ == vstd::utf8::decode_utf8(bytes@)
        } else {
            r matches Err(e) && e@ == "response body is not UTF-8: "@ + text::utf8_fault(bytes@)
        },
{
    match text::from_utf8(bytes) {
        Some(s) => Ok(s),
        None => {
            let why = text::utf8_fault_text(bytes);
            Err(text::join2("response body is not UTF-8: ", why.as_str()))
        },
    }
}

/// The head of a response, as far as it was read.
#[derive(Debug)]
pub enum ResponseHead {
    /// Where the body begins, the status and the headers.
    Complete(usize, Option<u16>, Vec<Header>),
    Partial,
    /// No response, for this reason.
    Invalid(String),
}

/// The model of a [`ResponseHead`].
pub enum HeadModel {
    Complete(usize, Option<u16>, Seq<HeaderModel>),
    Partial,
    Invalid(Seq<char>),
}

impl View for ResponseHead {
    type V = HeadModel;

    open spec fn view(&self) -> HeadModel {
        match self {
            ResponseHead::Complete(n, code, h) => HeadModel::Complete(
                *n,
                *code,
                header_models(h@),
            ),
            ResponseHead::Partial => HeadModel::Partial,
            ResponseHead::Invalid(e) => HeadModel::Invalid(e@),
        }
    }
}

/// The head of the response that some bytes are; at most `slots` headers are
/// read.
pub uninterp spec fn response_head(buf: Seq<u8>, slots: usize) -> HeadModel;

/// `httparse`'s `Response::parse`. The body begins no later than where the
/// bytes end. What it accepts is not stated here.
#[verifier::external_body]
fn parse_response_head(buf: &[u8], slots: usize) -> (head: ResponseHead)
    requires
        slots <= 64,
    ensures
        head@ == response_head(buf@, slots),
        head matches ResponseHead::Complete(n, _, _) ==> n <= buf@.len(),
{
    let mut headers = vec![httparse::EMPTY_HEADER; slots];
    let mut resp = httparse::Response::new(&mut headers);
    match resp.parse(buf) {
        Ok(httparse::Status::Complete(n)) => {
            let read = resp.headers.iter().map(|h| (h.name.to_owned(), h.value.to_vec()));
            ResponseHead::Complete(n, resp.code, read.collect())
        },
        Ok(httparse::Status::Partial) => ResponseHead::Partial,
        Err(e) => ResponseHead::Invalid(e.to_string()),
    }
}

/// What a response comes to.
#[derive(Debug)]
pub enum Outcome {
    Body(Vec<u8>),
    /// Look there instead.
    Redirect(String),
}

/// The model of an [`Outcome`].
pub enum OutcomeModel {
    Body(Seq<u8>),
    Redirect(Seq<char>),
}

impl View for Outcome {
    type V = OutcomeModel;

    open spec fn view(&self) -> OutcomeModel {
        match self {
            Outcome::Body(b) => OutcomeModel::Body(b@),
            Outcome::Redirect(to) => OutcomeModel::Redirect(to@),
        }
    }
}

/// The value of the first header of a name.
pub open spec fn first_header(headers: Seq<HeaderModel>, name: Seq<char>) -> Option<Seq<u8>>
    decreases headers.len(),
{
    if headers.len() == 0 {
        None
    } else if text::ascii_lower(headers[0].0) == text::ascii_lower(name) {
        Some(headers[0].1)
    } else {
        first_header(headers.drop_first(), name)
    }
}

/// Whether a list separated by commas names the chunked coding.
pub open spec fn lists_chunked(parts: Seq<Seq<char>>) -> bool {
    exists|i: int|
        0 <= i < parts.len() && text::ascii_lower(text::trim_of(#[trigger] parts[i]))
            == text::ascii_lower("chunked"@)
}

/// Whether a header says that the body is chunked.
pub open spec fn says_chunked(h: HeaderModel) -> bool {
    text::ascii_lower(h.0) == text::ascii_lower("transfer-encoding"@) && vstd::utf8::valid_utf8(h.1)
        && lists_chunked(text::split_of(vstd::utf8::decode_utf8(h.1), ','))
}

/// Whether some header says that the body is chunked.
pub open spec fn any_chunked(headers: Seq<HeaderModel>) -> bool {
    exists|i: int| 0 <= i < headers.len() && says_chunked(#[trigger] headers[i])
}

/// What a response comes to, by its head and all its bytes.
pub open spec fn outcome_of(head: HeadModel, buf: Seq<u8>) -> Result<OutcomeModel, Seq<char>> {
    match head {
        HeadModel::Invalid(e) => Err("response parse error: "@ + e),
        HeadModel::Partial => Err("incomplete HTTP response (no header terminator)"@),
        HeadModel::Complete(body_start, code, headers) => match code {
            None => Err("response missing status code"@),
            Some(status) => if 300 <= status < 400 {
                match first_header(headers, "location"@) {
                    None => Err(
                        "HTTP "@ + text::decimal(status as nat)
                            + " redirect without Location header"@,
                    ),
                    Some(value) => if vstd::utf8::valid_utf8(value) {
                        Ok(OutcomeModel::Redirect(vstd::utf8::decode_utf8(value)))
                    } else {
                        Err("non-UTF-8 Location header: "@ + text::utf8_fault(value))
                    },
                }
            } else if !(200 <= status < 300) {
                Err("HTTP "@ + text::decimal(status as nat))
            } else if any_chunked(headers) {
                match chunked::chunked_body(buf.skip(body_start as int), 0) {
                    Ok(body) => Ok(OutcomeModel::Body(body)),
                    Err(e) => Err(e),
                }
            } else {
                Ok(OutcomeModel::Body(buf.skip(body_start as int)))
            },
        },
    }
}

/// Whether a result is what a model says.
pub open spec fn same_outcome(
    r: Result<Outcome, String>,
    m: Result<OutcomeModel, Seq<char>>,
) -> bool {
    match r {
        Ok(o) => m == Ok::<OutcomeModel, Seq<char>>(o@),
        Err(e) => m == Err::<OutcomeModel, Seq<char>>(e@),
    }
}

fn find_header(headers: &Vec<Header>, name: &str) -> (out: Option<usize>)
    ensures
        match out {
            Some(i) => i < headers@.len() && first_header(header_models(headers@), name@) == Some(
                headers@[i as int].1@,
            ),
            None => first_header(header_models(headers@), name@) is None,
        },
{
    let ghost all = header_models(headers@);
    let mut i: usize = 0;
    assert(all.skip(0) =~= all);
    while i < headers.len()
        invariant
            i <= headers@.len(),
            all == header_models(headers@),
            first_header(all, name@) == first_header(all.skip(i as int), name@),
        decreases headers@.len() - i,
    {
        assert(all.skip(i as int)[0] == (headers@[i as int].0@, headers@[i as int].1@));
        assert(all.skip(i as int).drop_first() =~= all.skip(i + 1));
        if text::same_ignoring_case(headers[i].0.as_str(), name) {
            return Some(i);
        }
        i += 1;
    }
    None
}

fn header_says_chunked(h: &Header) -> (b: bool)
    ensures
        b == says_chunked((h.0@, h.1@)),
{
    if !text::same_ignoring_case(h.0.as_str(), "transfer-encoding") {
        return false;
    }
    let value = match text::from_utf8(h.1.as_slice()) {
        None => {
            return false;
        },
        Some(v) => v,
    };
    let parts = text::split(value.as_str(), ',');
    let ghost all = text::split_of(value@, ',');
    let mut i: usize = 0;
    while i < parts.len()
        invariant
            i <= parts@.len(),
            all == text::texts(parts@),
            text::ascii_lower(h.0@) == text::ascii_lower("transfer-encoding"@),
            vstd::utf8::valid_utf8(h.1@),
            all == text::split_of(vstd::utf8::decode_utf8(h.1@), ','),
            forall|j: int|
                0 <= j < i ==> text::ascii_lower(text::trim_of(#[trigger] all[j]))
                    != text::ascii_lower("chunked"@),
        decreases parts@.len() - i,
    {
        assert(all[i as int] == parts@[i as int]@);
        let part = text::trim(parts[i].as_str());
        if text::same_ignoring_case(part.as_str(), "chunked") {
            return true;
        }
        i += 1;
    }
    false
}

fn headers_say_chunked(headers: &Vec<Header>) -> (b: bool)
    ensures
        b == any_chunked(header_models(headers@)),
{
    let ghost all = header_models(headers@);
    let mut i: usize = 0;
    while i < headers.len()
        invariant
            i <= headers@.len(),
            all == header_models(headers@),
            forall|j: int| 0 <= j < i ==> !says_chunked(#[trigger] all[j]),
        decreases headers@.len() - i,
    {
        assert(all[i as int] == (headers@[i as int].0@, headers@[i as int].1@));
        if header_says_chunked(&headers[i]) {
            return true;
        }
        i += 1;
    }
    false
}

fn status_text(status: u16, more: &str) -> (out: String)
    ensures
        out@ == "HTTP "@ + text::decimal(status as nat) + more@,
{
    let mut out = "HTTP ".to_owned();
    text::push_decimal(&mut out, status as u64);
    text::push_text(&mut out, more);
    out
}

/// What a response comes to, once its head was read.
pub fn judge_response(head: &ResponseHead, buf: &[u8]) -> (r: Result<Outcome, String>)
    requires
        head matches ResponseHead::Complete(n, _, _) ==> n <= buf@.len(),
    ensures
        same_outcome(r, outcome_of(head@, buf@)),
{
    match head {
        ResponseHead::Invalid(e) => Err(text::join2("response parse error: ", e.as_str())),
        ResponseHead::Partial => Err("incomplete HTTP response (no header terminator)".to_owned()),
        ResponseHead::Complete(body_start, code, headers) => {
            let status: u16 = match *code {
                None => {
                    return Err("response missing status code".to_owned());
                },
                Some(c) => c,
            };
            if 300 <= status && status < 400 {
                return match find_header(headers, "location") {
                    None => Err(status_text(status, " redirect without Location header")),
                    Some(i) => match text::from_utf8(headers[i].1.as_slice()) {
                        Some(to) => Ok(Outcome::Redirect(to)),
                        None => {
                            let why = text::utf8_fault_text(headers[i].1.as_slice());
                            Err(text::join2("non-UTF-8 Location header: ", why.as_str()))
                        },
                    },
                };
            }
            if status < 200 || status >= 300 {
                let what = status_text(status, "");
                proof {
                    reveal_strlit("");
                    assert(what@ =~= "HTTP "@ + text::decimal(status as nat));
                }
                return Err(what);
            }
            let start: usize = *body_start;
            let total: usize = buf.len();
            let rest = vstd::slice::slice_subrange(buf, start, total);
            assert(rest@ =~= buf@.skip(start as int));
            if headers_say_chunked(headers) {
                match decode_chunked(rest) {
                    Ok(body) => Ok(Outcome::Body(body)),
                    Err(e) => Err(e),
                }
            } else {
                Ok(Outcome::Body(octets::copy(rest)))
            }
        },
    }
}

/// What a response comes to: its body, another place to look, or an error.
pub fn parse_response(buf: &[u8]) -> (r: Result<Outcome, String>)
    ensures
        same_outcome(r, outcome_of(response_head(buf@, MAX_RESPONSE_HEADERS), buf@)),
{
    let head = parse_response_head(buf, MAX_RESPONSE_HEADERS);
    judge_response(&head, buf)
}

/// A fetch under way.
#[derive(Debug)]
pub struct Fetch {
    /// The URL that it began with.
    pub start: String,
    pub current: UrlParts,
    /// How many redirects were followed.
    pub redirects: u8,
}

/// What to do next in a fetch.
#[derive(Debug)]
pub enum FetchStep {
    /// Ask again, at the new place.
    Again,
    Done(Vec<u8>),
    Fail(String),
}

impl Fetch {
    /// Starts to fetch a URL.
    pub fn start(url: &str) -> (r: Result<Fetch, String>)
        ensures
            match url_of(url@) {
                Ok(u) => r matches Ok(f) && f.start@ == url@ && f.current@ == u && f.redirects == 0,
                Err(e) => r matches Err(what) && what@ == "invalid URL '"@ + url@ + "': "@ + e,
            },
    {
        match parse_url(url) {
            Ok(current) => Ok(Fetch { start: url.to_owned(), current, redirects: 0 }),
            Err(e) => {
                let mut what = text::join3("invalid URL '", url, "': ");
                text::push_text(&mut what, e.as_str());
                Err(what)
            },
        }
    }

    /// What the next step is once a redirect was looked up: the new place is
    /// asked, unless it makes no sense or too many were followed already.
    pub open spec fn redirected(
        before: Fetch,
        after: Fetch,
        to: Seq<char>,
        place: Result<UrlModel, Seq<char>>,
        step: FetchStep,
    ) -> bool {
        match place {
            Err(e) => (step matches FetchStep::Fail(what) && what@ == "bad redirect Location '"@ + to
                + "': "@ + e) && after == before,
            Ok(u) => if before.redirects >= MAX_REDIRECTS {
                (step matches FetchStep::Fail(what) && what@
                    == "too many redirects (> 5) starting from "@ + before.start@) && after
                    == before
            } else {
                step is Again && after.start == before.start && after.current@ == u
                    && after.redirects == before.redirects + 1
            },
        }
    }

    /// Goes to the place that a redirect means.
    pub fn redirect(&mut self, to: &str, place: Result<UrlParts, String>) -> (step: FetchStep)
        ensures
            match place {
                Ok(u) => Fetch::redirected(*old(self), *final(self), to@, Ok(u@), step),
                Err(e) => Fetch::redirected(*old(self), *final(self), to@, Err(e@), step),
            },
    {
        match place {
            Err(e) => {
                let mut what = text::join3("bad redirect Location '", to, "': ");
                text::push_text(&mut what, e.as_str());
                FetchStep::Fail(what)
            },
            Ok(u) => {
                if self.redirects >= MAX_REDIRECTS {
                    return FetchStep::Fail(
                        text::join2(
                            "too many redirects (> 5) starting from ",
                            self.start.as_str(),
                        ),
                    );
                }
                self.current = u;
                self.redirects = self.redirects + 1;
                FetchStep::Again
            },
        }
    }

    /// Goes on with a response.
    pub fn on_response(&mut self, outcome: Result<Outcome, String>) -> (step: FetchStep)
        ensures
            match outcome {
                Err(e) => step == FetchStep::Fail(e) && *final(self) == *old(self),
                Ok(Outcome::Body(b)) => step == FetchStep::Done(b) && *final(self) == *old(self),
                Ok(Outcome::Redirect(to)) => Fetch::redirected(
                    *old(self),
                    *final(self),
                    to@,
                    url_beside(old(self).current.text@, to@),
                    step,
                ),
            },
    {
        match outcome {
            Err(e) => FetchStep::Fail(e),
            Ok(Outcome::Body(b)) => FetchStep::Done(b),
            Ok(Outcome::Redirect(to)) => {
                let place = join_url(self.current.text.as_str(), to.as_str());
                self.redirect(to.as_str(), place)
            },
        }
    }
}

/// A fetch that asks again has followed at most [`MAX_REDIRECTS`] redirects, so
/// that it asks at most once more than that.
pub proof fn law_redirects_end(
    before: Fetch,
    after: Fetch,
    to: Seq<char>,
    place: Result<UrlModel, Seq<char>>,
    step: FetchStep,
)
    requires
        Fetch::redirected(before, after, to, place, step),
        step is Again,
    ensures
        before.redirects < after.redirects <= MAX_REDIRECTS,
{
}

/// The name that the first proxy of a configuration has, where it has one.
pub open spec fn first_name(names: Option<Seq<Option<Seq<char>>>>) -> Option<Seq<char>> {
    match names {
        None => None,
        Some(n) => if n.len() == 0 {
            None
        } else {
            n[0]
        },
    }
}

/// Where a name first stands.
pub open spec fn index_of(registry: Seq<Seq<char>>, name: Seq<char>) -> Option<int>
    decreases registry.len(),
{
    if registry.len() == 0 {
        None
    } else if registry[0] == name {
        Some(0)
    } else {
        match index_of(registry.drop_first(), name) {
            Some(i) => Some(i + 1),
            None => None,
        }
    }
}

/// The models of names that may be there.
pub open spec fn opt_texts(names: Seq<Option<String>>) -> Seq<Option<Seq<char>>> {
    names.map_values(|n: Option<String>| text::opt_text(n))
}

/// Where a name first stands.
pub fn find_name(registry: &Vec<String>, name: &str) -> (out: Option<usize>)
    ensures
        match out {
            Some(i) => index_of(text::texts(registry@), name@) == Some(i as int) && i
                < registry@.len(),
            None => index_of(text::texts(registry@), name@) is None,
        },
{
    let ghost all = text::texts(registry@);
    let mut i: usize = 0;
    assert(all.skip(0) =~= all);
    while i < registry.len()
        invariant
            i <= registry@.len(),
            all == text::texts(registry@),
            index_of(all, name@) == (match index_of(all.skip(i as int), name@) {
                Some(k) => Some(k + i),
                None => None::<int>,
            }),
        decreases registry@.len() - i,
    {
        assert(all.skip(i as int)[0] == registry@[i as int]@);
        assert(all.skip(i as int).drop_first() =~= all.skip(i + 1));
        if text::same(registry[i].as_str(), name) {
            return Some(i);
        }
        i += 1;
    }
    None
}

/// The proxy that internal downloads go through: the first one that the
/// configuration names, where the registry knows it. A first entry without a
/// name, or with one that the registry does not know, gives none.
pub fn first_named_proxy(
    raw_names: Option<&Vec<Option<String>>>,
    registry: &Vec<String>,
) -> (out: Option<usize>)
    ensures
        ({
            let names = match raw_names {
                Some(n) => Some(opt_texts(n@)),
                None => None,
            };
            match first_name(names) {
                None => out is None,
                Some(name) => match index_of(text::texts(registry@), name) {
                    Some(i) => out == Some(i as usize) && i < registry@.len(),
                    None => out is None,
                },
            }
        }),
{
    match raw_names {
        None => None,
        Some(names) => {
            if names.len() == 0 {
                return None;
            }
            assert(opt_texts(names@)[0] == text::opt_text(names@[0]));
            match &names[0] {
                None => None,
                Some(name) => find_name(registry, name.as_str()),
            }
        },
    }
}

} // verus!
