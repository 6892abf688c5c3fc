//! Finding the host in the first bytes of an HTTP request.
use crate::text;
use vstd::prelude::*;

verus! {

/// Most headers that are looked at.
pub const MAX_SNIFF_HEADERS: usize = 32;

/// One header: its name and its value.
pub type Header = (String, Vec<u8>);

/// The model of a [`Header`].
pub type HeaderModel = (Seq<char>, Seq<u8>);

/// The models of some headers.
pub open spec fn header_models(headers: Seq<Header>) -> Seq<HeaderModel> {
    headers.map_values(|h: Header| (h.0@, h.1@))
}

/// The headers of the request that some bytes begin, where they can begin one;
/// at most `slots` of them are read.
pub uninterp spec fn request_headers(buf: Seq<u8>, slots: usize) -> Option<Seq<HeaderModel>>;

/// `httparse`'s `Request::parse`, which takes a whole request or the start of
/// one. What it accepts is not stated here.
#[verifier::external_body]
fn parse_request_headers(buf: &[u8], slots: usize) -> (out: Option<Vec<Header>>)
    requires
        slots <= 64,
    ensures
        match out {
            Some(h) => request_headers(buf@, slots) == Some(header_models(h@)),
            None => request_headers(buf@, slots) is None,
        },
{
    let mut headers = vec![httparse::EMPTY_HEADER; slots];
    let mut req = httparse::Request::new(&mut headers);
    req.parse(buf).ok()?;
    Some(req.headers.iter().map(|h| (h.name.to_owned(), h.value.to_vec())).collect())
}

/// The host in the value of a `Host` header: without its port, without the
/// brackets of an IPv6 address, in lower case. Nothing where a bracket is not
/// closed or no host is left.
pub open spec fn host_in(value: Seq<char>) -> Option<Seq<char>> {
    let s = text::trim_of(value);
    let host = if s.len() > 0 && s[0] == '[' {
        match text::split_once_of(s.drop_first(), ']') {
            Some(p) => p.0,
            None => Seq::empty(),
        }
    } else {
        text::split_of(s, ':')[0]
    };
    if host.len() == 0 {
        None
    } else {
        Some(text::ascii_lower(host))
    }
}

/// The host that some headers name: that of the first `Host` header.
pub open spec fn host_of(headers: Seq<HeaderModel>) -> Option<Seq<char>>
    decreases headers.len(),
{
    if headers.len() == 0 {
        None
    } else if text::ascii_lower(headers[0].0) == text::ascii_lower("host"@) {
        if vstd::utf8::valid_utf8(headers[0].1) {
            host_in(vstd::utf8::decode_utf8(headers[0].1))
        } else {
            None
        }
    } else {
        host_of(headers.drop_first())
    }
}

/// The host in the value of a `Host` header.
pub fn host_in_value(value: &str) -> (out: Option<String>)
    ensures
        match out {
            Some(h) => host_in(value@) == Some(h@),
            None => host_in(value@) is None,
        },
{
    let s = text::trim(value);
    let chars = text::chars_of(s.as_str());
    let n: usize = chars.len();
    let host = if n > 0 && chars[0] == '[' {
        let rest = text::sub_text(&chars, 1, n);
        assert(rest@ =~= s@.drop_first());
        match text::split_once(rest.as_str(), ']') {
            Some((h, _)) => h,
            None => {
                return None;
            },
        }
    } else {
        let at = text::find_char(&chars, 0, n, ':');
        proof {
            assert(chars@.subrange(0, n as int) =~= s@);
            text::lemma_first_of(s@, ':');
        }
        let h = text::sub_text(&chars, 0, at);
        assert(h@ =~= text::split_of(s@, ':')[0]);
        h
    };
    if host.as_str().is_empty() {
        return None;
    }
    Some(text::to_ascii_lowercase(host.as_str()))
}

/// The host that the headers name.
pub fn host_in_headers(headers: &Vec<Header>) -> (out: Option<String>)
    ensures
        match out {
            Some(h) => host_of(header_models(headers@)) == Some(h@),
            None => host_of(header_models(headers@)) is None,
        },
{
    let ghost all = header_models(headers@);
    let mut i: usize = 0;
    assert(all.skip(0) =~= all);
    while i < headers.len()
        invariant
            i <= headers@.len(),
            all == header_models(headers@),
            host_of(all) == host_of(all.skip(i as int)),
        decreases headers@.len() - i,
    {
        assert(all.skip(i as int)[0] == (headers@[i as int].0@, headers@[i as int].1@));
        assert(all.skip(i as int).drop_first() =~= all.skip(i + 1));
        if text::same_ignoring_case(headers[i].0.as_str(), "host") {
            return match text::from_utf8(headers[i].1.as_slice()) {
                Some(v) => host_in_value(v.as_str()),
                None => None,
            };
        }
        i += 1;
    }
    None
}

/// The host in the first bytes of a request. The request need not be complete;
/// nothing is found in what cannot begin one.
pub fn sniff_http(buf: &[u8]) -> (out: Option<String>)
    ensures
        match request_headers(buf@, MAX_SNIFF_HEADERS) {
            None => out is None,
            Some(headers) => match out {
                Some(h) => host_of(headers) == Some(h@),
                None => host_of(headers) is None,
            },
        },
{
    match parse_request_headers(buf, MAX_SNIFF_HEADERS) {
        Some(headers) => host_in_headers(&headers),
        None => None,
    }
}

/// A host that was found is never empty and has no upper-case ASCII letter.
pub proof fn law_host_is_lower(value: Seq<char>)
    ensures
        host_in(value) matches Some(h) ==> h.len() > 0 && text::ascii_lower(h) == h,
{
    let s = text::trim_of(value);
    if s.len() > 0 && s[0] == '[' {
        if text::split_once_of(s.drop_first(), ']') is Some {
            text::lemma_lower_idempotent((text::split_once_of(s.drop_first(), ']')->0).0);
        }
    } else {
        text::lemma_lower_idempotent(text::split_of(s, ':')[0]);
    }
}

} // verus!
