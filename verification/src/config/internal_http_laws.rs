//! What holds of every download.
use crate::common::sniff_http::{header_models, Header, HeaderModel};
use crate::config::chunked::{chunk_size, chunked_body, crlf, decode_chunked};
use crate::config::internal_http::{
    any_chunked, body_text, check_content_length, find_name, first_header, first_named_proxy,
    host_header, index_of, judge_response, request_for, says_chunked, take_response_bytes, Fetch,
    FetchRequest, FetchStep, Outcome, ResponseHead, UrlParts,
};
use crate::numbers;
use crate::octets;
use crate::text;
use crate::text_laws;
use crate::text_laws::alike;
use vstd::prelude::*;
use vstd::utf8::{decode_utf8, encode_utf8, valid_utf8};

verus! {

/// Whether the first header of a name stands at a place.
pub open spec fn first_at(headers: Seq<Header>, name: Seq<char>, at: int) -> bool {
    &&& 0 <= at < headers.len()
    &&& alike(headers[at].0@, name)
    &&& forall|i: int| 0 <= i < at ==> !alike((#[trigger] headers[i]).0@, name)
}

proof fn lemma_first_header(headers: Seq<HeaderModel>, name: Seq<char>, at: int)
    requires
        0 <= at <= headers.len(),
        forall|i: int| 0 <= i < at ==> !alike((#[trigger] headers[i]).0, name),
        at < headers.len() ==> alike(headers[at].0, name),
    ensures
        first_header(headers, name) == if at < headers.len() {
            Some(headers[at].1)
        } else {
            None::<Seq<u8>>
        },
    decreases at,
{
    if headers.len() > 0 {
        text_laws::lemma_alike(headers[0].0, name);
        if at > 0 {
            let rest = headers.drop_first();
            assert forall|i: int| 0 <= i < at - 1 implies !alike((#[trigger] rest[i]).0, name) by {
                assert(rest[i] == headers[i + 1]);
            }
            lemma_first_header(rest, name, at - 1);
        }
    }
}

/// Every status from 300 to 399 with a `Location` is followed to that place.
pub proof fn law_redirect_is_followed(
    head: &ResponseHead,
    buf: &[u8],
    r: Result<Outcome, String>,
    start: usize,
    status: u16,
    headers: Vec<Header>,
    at: int,
)
    requires
        call_ensures(judge_response, (head, buf), r),
        *head == ResponseHead::Complete(start, Some(status), headers),
        start <= buf@.len(),
        300 <= status <= 399,
        first_at(headers@, "location"@, at),
    ensures
        valid_utf8(headers@[at].1@) ==> (r matches Ok(Outcome::Redirect(to)) && to@ == decode_utf8(
            headers@[at].1@,
        )),
        !valid_utf8(headers@[at].1@) ==> r is Err,
{
    let all = header_models(headers@);
    assert forall|i: int| 0 <= i < at implies !alike((#[trigger] all[i]).0, "location"@) by {
        assert(!alike(headers@[i].0@, "location"@));
    }
    lemma_first_header(all, "location"@, at);
}

/// A redirect that names no place is an error.
pub proof fn law_redirect_to_nowhere(
    head: &ResponseHead,
    buf: &[u8],
    r: Result<Outcome, String>,
    start: usize,
    status: u16,
    headers: Vec<Header>,
)
    requires
        call_ensures(judge_response, (head, buf), r),
        *head == ResponseHead::Complete(start, Some(status), headers),
        start <= buf@.len(),
        300 <= status <= 399,
        forall|i: int| 0 <= i < headers@.len() ==> !alike((#[trigger] headers@[i]).0@, "location"@),
    ensures
        r matches Err(e) && e@ == "HTTP "@ + text::decimal(status as nat)
            + " redirect without Location header"@,
{
    let all = header_models(headers@);
    assert forall|i: int| 0 <= i < all.len() implies !alike((#[trigger] all[i]).0, "location"@) by {
        assert(!alike(headers@[i].0@, "location"@));
    }
    lemma_first_header(all, "location"@, all.len() as int);
}

/// A response with a status from 200 to 299 that names no coding comes to the
/// bytes behind its head, all of them.
pub proof fn law_body_is_taken(
    head: &ResponseHead,
    buf: &[u8],
    r: Result<Outcome, String>,
    start: usize,
    status: u16,
    headers: Vec<Header>,
)
    requires
        call_ensures(judge_response, (head, buf), r),
        *head == ResponseHead::Complete(start, Some(status), headers),
        start <= buf@.len(),
        200 <= status <= 299,
        forall|i: int|
            0 <= i < headers@.len() ==> !alike(
                (#[trigger] headers@[i]).0@,
                "transfer-encoding"@,
            ),
    ensures
        r matches Ok(Outcome::Body(body)) && body@ == buf@.subrange(start as int, buf@.len() as int),
{
    let all = header_models(headers@);
    assert forall|i: int| 0 <= i < all.len() implies !says_chunked(#[trigger] all[i]) by {
        assert(!alike(headers@[i].0@, "transfer-encoding"@));
        text_laws::lemma_alike(all[i].0, "transfer-encoding"@);
    }
    assert(buf@.skip(start as int) =~= buf@.subrange(start as int, buf@.len() as int));
}

/// A response whose `Transfer-Encoding` ends with the chunked coding comes to
/// what its chunks carry.
pub proof fn law_chunked_body_is_decoded(
    head: &ResponseHead,
    buf: &[u8],
    r: Result<Outcome, String>,
    start: usize,
    status: u16,
    headers: Vec<Header>,
    at: int,
    others: Option<Seq<char>>,
    blanks: Seq<char>,
    word: Seq<char>,
    rest: &[u8],
    decoded: Result<Vec<u8>, String>,
)
    requires
        call_ensures(judge_response, (head, buf), r),
        call_ensures(decode_chunked, (rest,), decoded),
        *head == ResponseHead::Complete(start, Some(status), headers),
        start <= buf@.len(),
        rest@ == buf@.subrange(start as int, buf@.len() as int),
        200 <= status <= 299,
        0 <= at < headers@.len(),
        alike(headers@[at].0@, "transfer-encoding"@),
        alike(word, "chunked"@),
        text_laws::all_blank(blanks),
        valid_utf8(headers@[at].1@),
        decode_utf8(headers@[at].1@) == match others {
            Some(others) => others + seq![','] + blanks + word,
            None => blanks + word,
        },
    ensures
        match decoded {
            Ok(body) => r matches Ok(Outcome::Body(b)) && b@ == body@,
            Err(e) => r matches Err(f) && f@ == e@,
        },
{
    reveal_strlit("chunked");
    let all = header_models(headers@);
    let h = all[at];
    let value = decode_utf8(h.1);
    let piece = blanks + word;
    assert(forall|i: int| 0 <= i < word.len() ==> text_laws::same_letter(#[trigger] word[i], "chunked"@[i]));
    assert forall|i: int| 0 <= i < word.len() implies text_laws::visible(#[trigger] word[i]) && word[i]
        != ',' by {
        assert(text_laws::same_letter(word[i], "chunked"@[i]));
    }
    assert(!piece.contains(',')) by {
        if piece.contains(',') {
            let i = choose|i: int| 0 <= i < piece.len() && piece[i] == ',';
            if i < blanks.len() {
                assert(!text_laws::visible(blanks[i]));
            } else {
                assert(word[i - blanks.len()] == ',');
            }
        }
    }
    let pieces = text::split_of(value, ',');
    match others {
        Some(o) => {
            text_laws::lemma_last_piece(o, ',', piece);
            assert(value =~= o + seq![','] + piece);
        },
        None => {
            text_laws::lemma_last_piece(Seq::empty(), ',', piece);
            assert(value =~= piece);
            assert(pieces == seq![piece]);
        },
    }
    assert(pieces.last() == piece);
    let k = pieces.len() - 1;
    assert(pieces[k] == piece);
    text_laws::lemma_trimmed(blanks, word, Seq::empty());
    assert(blanks + word + Seq::<char>::empty() =~= piece);
    text_laws::lemma_alike(word, "chunked"@);
    text_laws::lemma_alike(h.0, "transfer-encoding"@);
    assert(text::ascii_lower(text::trim_of(pieces[k])) == text::ascii_lower("chunked"@));
    assert(says_chunked(h));
    assert(any_chunked(all));
    assert(buf@.skip(start as int) =~= rest@);
}

/// Any other status is an error that tells it, and what is no complete response
/// is an error too.
pub proof fn law_other_responses(head: &ResponseHead, buf: &[u8], r: Result<Outcome, String>)
    requires
        call_ensures(judge_response, (head, buf), r),
        *head matches ResponseHead::Complete(start, _, _) ==> start <= buf@.len(),
    ensures
        *head matches ResponseHead::Complete(_, Some(status), _) ==> (status < 200 || status >= 400
            ==> (r matches Err(e) && e@ == "HTTP "@ + text::decimal(status as nat))),
        *head matches ResponseHead::Complete(_, None, _) ==> r is Err,
        *head is Partial ==> r is Err,
        *head matches ResponseHead::Invalid(why) ==> (r matches Err(e) && e@
            == "response parse error: "@ + why@),
{
}

/// The value of a hexadecimal digit in either case.
pub open spec fn nibble(c: char) -> int {
    let n = c as int;
    if 0x30 <= n <= 0x39 {
        n - 0x30
    } else if 0x61 <= n <= 0x66 {
        n - 0x61 + 10
    } else if 0x41 <= n <= 0x46 {
        n - 0x41 + 10
    } else {
        -1
    }
}

/// Whether a text is one of hexadecimal digits.
pub open spec fn is_hex(s: Seq<char>) -> bool {
    s.len() > 0 && forall|i: int| 0 <= i < s.len() ==> nibble(#[trigger] s[i]) >= 0
}

/// The number that hexadecimal digits write behind another.
pub open spec fn hex_from(s: Seq<char>, before: int) -> int
    decreases s.len(),
{
    if s.len() == 0 {
        before
    } else {
        hex_from(s.drop_first(), before * 16 + nibble(s[0]))
    }
}

proof fn lemma_nibble(c: char)
    ensures
        nibble(c) >= 0 ==> numbers::digit_of(c) == Some(nibble(c) as nat) && nibble(c) < 16
            && text_laws::visible(c) && c != ';' && c != '+' && (c as int) < 0x80 && c != '\r',
{
}

proof fn lemma_hex(s: Seq<char>, before: nat, max: nat)
    requires
        forall|i: int| 0 <= i < s.len() ==> nibble(#[trigger] s[i]) >= 0,
    ensures
        hex_from(s, before as int) >= before,
        hex_from(s, before as int) <= max && before <= max ==> numbers::digits_in(
            s,
            16,
            before,
            max,
        ) == Ok::<nat, numbers::NumberFault>(hex_from(s, before as int) as nat),
    decreases s.len(),
{
    if s.len() > 0 {
        assert(nibble(s[0]) >= 0);
        lemma_nibble(s[0]);
        let rest = s.drop_first();
        assert forall|i: int| 0 <= i < rest.len() implies nibble(#[trigger] rest[i]) >= 0 by {
            assert(rest[i] == s[i + 1]);
        }
        lemma_hex(rest, (before * 16 + nibble(s[0])) as nat, max);
    }
}

/// The size of a chunk is hexadecimal; an extension behind a semicolon does not
/// count.
pub proof fn law_chunk_size(digits: Seq<char>, extension: Option<Seq<char>>)
    requires
        is_hex(digits),
        hex_from(digits, 0) <= 0xffff_ffff,
    ensures
        chunk_size(
            encode_utf8(
                digits + match extension {
                    Some(e) => seq![';'] + e,
                    None => Seq::empty(),
                },
            ),
        ) == Ok::<nat, Seq<char>>(hex_from(digits, 0) as nat),
{
    let words = digits + match extension {
        Some(e) => seq![';'] + e,
        None => Seq::empty(),
    };
    vstd::utf8::encode_utf8_valid_utf8(words);
    vstd::utf8::encode_utf8_decode_utf8(words);
    assert(!digits.contains(';')) by {
        if digits.contains(';') {
            let i = choose|i: int| 0 <= i < digits.len() && digits[i] == ';';
            assert(nibble(digits[i]) >= 0);
        }
    }
    match extension {
        Some(e) => {
            text_laws::lemma_first_piece(digits, ';', e);
            assert(words =~= digits + seq![';'] + e);
        },
        None => {
            text_laws::lemma_first_piece(digits, ';', Seq::empty());
            assert(words =~= digits);
        },
    }
    assert(text::split_of(words, ';')[0] == digits);
    assert(nibble(digits[0]) >= 0 && nibble(digits[digits.len() - 1]) >= 0);
    lemma_nibble(digits[0]);
    lemma_nibble(digits[digits.len() - 1]);
    text_laws::lemma_trim_visible(digits);
    lemma_hex(digits, 0, usize::MAX as nat);
}

proof fn lemma_done(input: Seq<u8>, done: nat)
    ensures
        chunked_body(input, 0) matches Ok(body) ==> body.len() + done
            <= crate::config::chunked::MAX_BODY_BYTES ==> chunked_body(input, done) == Ok::<
            Seq<u8>,
            Seq<char>,
        >(body),
{
    lemma_done_from(input, 0, done);
}

proof fn lemma_done_from(input: Seq<u8>, before: nat, done: nat)
    ensures
        chunked_body(input, before) matches Ok(body) ==> body.len() + done + before
            <= crate::config::chunked::MAX_BODY_BYTES ==> chunked_body(input, before + done) == Ok::<
            Seq<u8>,
            Seq<char>,
        >(body),
    decreases input.len(),
{
    octets::lemma_first_at(input, crlf(), 0);
    if chunked_body(input, before) is Ok {
        let at = octets::first_at(input, crlf(), 0)->0;
        let size = chunk_size(input.take(at))->Ok_0;
        if size > 0 {
            let rest = input.skip(at + 2);
            lemma_done_from(rest.skip(size as int + 2), before + size, done);
        }
    }
}

/// A chunk is a hexadecimal size on a line, that many bytes, and a line end; its
/// bytes come in front of those of the chunks behind it.
pub proof fn law_chunk_is_read(
    input: &[u8],
    out: Result<Vec<u8>, String>,
    digits: Seq<char>,
    data: Seq<u8>,
    rest: &[u8],
    more: Result<Vec<u8>, String>,
)
    requires
        call_ensures(decode_chunked, (input,), out),
        call_ensures(decode_chunked, (rest,), more),
        is_hex(digits),
        data.len() > 0,
        hex_from(digits, 0) == data.len(),
        more is Ok,
        data.len() + more->Ok_0@.len() <= 268_435_456,
        input@ == encode_utf8(digits) + seq![13u8, 10u8] + data + seq![13u8, 10u8] + rest@,
    ensures
        out matches Ok(body) && body@ == data + more->Ok_0@,
{
    let line = encode_utf8(digits);
    law_chunk_size(digits, None);
    assert(digits + Seq::<char>::empty() =~= digits);
    lemma_hex_line(digits);
    assert(crlf() == seq![13u8, 10u8]);
    crate::config::chunked::law_chunk_in_front(line, data, rest@, 0);
    assert(input@ =~= crate::config::chunked::chunk(line, data) + rest@);
    lemma_done(rest@, data.len());
}

proof fn lemma_hex_line(digits: Seq<char>)
    requires
        is_hex(digits),
    ensures
        crate::config::chunked::is_line(encode_utf8(digits)),
{
    let line = encode_utf8(digits);
    assert(vstd::utf8::is_ascii_chars(digits)) by {
        assert forall|i: int| 0 <= i < digits.len() implies (#[trigger] digits[i]) as int <= 127 by {
            assert(nibble(digits[i]) >= 0);
            lemma_nibble(digits[i]);
        }
    }
    vstd::utf8::is_ascii_chars_encode_utf8(digits);
    assert forall|i: int| 0 <= i < line.len() implies #[trigger] line[i] != 13 by {
        assert(line[i] == digits[i] as u8);
        assert(nibble(digits[i]) >= 0);
        lemma_nibble(digits[i]);
    }
    lemma_is_line(line);
}

proof fn lemma_is_line(line: Seq<u8>)
    requires
        forall|i: int| 0 <= i < line.len() ==> #[trigger] line[i] != 13,
    ensures
        crate::config::chunked::is_line(line),
{
    let b = line + crlf();
    let n = line.len() as int;
    assert(octets::occurs_at(b, crlf(), n)) by {
        assert(b.subrange(n, n + 2) =~= crlf());
    }
    assert forall|j: int| 0 <= j < n implies !octets::occurs_at(b, crlf(), j) by {
        lemma_no_line_end(line, j);
    }
    octets::lemma_first_is(b, crlf(), n);
}

proof fn lemma_no_line_end(line: Seq<u8>, j: int)
    requires
        0 <= j < line.len(),
        line[j] != 13,
    ensures
        !octets::occurs_at(line + crlf(), crlf(), j),
{
    let b = line + crlf();
    if octets::occurs_at(b, crlf(), j) {
        let p = b.subrange(j, j + crlf().len());
        assert(p == crlf());
        assert(p[0] == 13);
        assert(p[0] == b[j]);
    }
}

/// The chunk of size zero and an empty line end a body.
pub proof fn law_chunks_end(input: &[u8], out: Result<Vec<u8>, String>)
    requires
        call_ensures(decode_chunked, (input,), out),
        input@ == seq![0x30u8, 13u8, 10u8, 13u8, 10u8],
    ensures
        out matches Ok(body) && body@.len() == 0,
{
    let zero = seq!['0'];
    assert(is_hex(zero));
    reveal_with_fuel(hex_from, 2);
    assert(hex_from(zero, 0) == 0);
    law_chunk_size(zero, None);
    assert(zero + Seq::<char>::empty() =~= zero);
    vstd::utf8::is_ascii_chars_encode_utf8(zero);
    let line = encode_utf8(zero);
    assert(line =~= seq![0x30u8]);
    lemma_hex_line(zero);
    octets::lemma_first_at(input@, crlf(), 0);
    assert(input@.subrange(1, 3) =~= crlf());
    assert(octets::occurs_at(input@, crlf(), 1));
    let at = octets::first_at(input@, crlf(), 0)->0;
    if at == 0 {
        assert(input@.subrange(0, 2)[0] == 0x30);
    }
    assert(at == 1);
    assert(input@.take(1) =~= line);
    assert(input@.skip(3) =~= crlf());
}

/// A request for a URL goes to its host and port, over TLS for `https` alone, and
/// asks for its path and query.
pub proof fn law_request(url: &UrlParts, r: Result<FetchRequest, String>)
    requires
        call_ensures(request_for, (url,), r),
    ensures
        r is Ok <==> (url.scheme@ == "http"@ || url.scheme@ == "https"@) && url.host is Some
            && url.port is Some,
        r matches Ok(q) ==> {
            &&& q.is_https == (url.scheme@ == "https"@)
            &&& q.host@ == url.host->0@
            &&& q.port == url.port->0
            &&& exists|target: Seq<char>, host: Seq<char>| #![auto]
                {
                    &&& q.bytes@ == encode_utf8(
                        "GET "@ + target + " HTTP/1.1\r\nHost: "@ + host
                            + "\r\nUser-Agent: "@ + "clash.meta/0.1.0"@
                            + "\r\nAccept: */*\r\nAccept-Encoding: identity\r\nConnection: close\r\n\r\n"@,
                    )
                    &&& url.query is None ==> target == url.path@
                    &&& url.query matches Some(query) ==> target == url.path@ + "?"@ + query@
                    &&& (q.is_https && q.port == 443) || (!q.is_https && q.port == 80) ==> host
                        == q.host@
                    &&& !((q.is_https && q.port == 443) || (!q.is_https && q.port == 80)) ==> host
                        == q.host@ + ":"@ + text::decimal(q.port as nat)
                }
        },
{
    reveal_strlit("http");
    reveal_strlit("https");
    if r is Ok {
        let q = r->Ok_0;
        let target = match url.query {
            Some(query) => url.path@ + "?"@ + query@,
            None => url.path@,
        };
        let host = if (q.is_https && q.port == 443) || (!q.is_https && q.port == 80) {
            q.host@
        } else {
            q.host@ + ":"@ + text::decimal(q.port as nat)
        };
        assert(q.bytes@ == encode_utf8(
            "GET "@ + target + " HTTP/1.1\r\nHost: "@ + host + "\r\nUser-Agent: "@
                + "clash.meta/0.1.0"@
                + "\r\nAccept: */*\r\nAccept-Encoding: identity\r\nConnection: close\r\n\r\n"@,
        ));
    }
}

/// The port stands in the `Host` header unless it is 80 for `http` or 443 for
/// `https`.
pub proof fn law_host_header(host: &str, port: u16, is_https: bool, out: String)
    requires
        call_ensures(host_header, (host, port, is_https), out),
    ensures
        is_https && port == 443 ==> out@ == host@,
        !is_https && port == 80 ==> out@ == host@,
        is_https && port != 443 ==> out@ == host@ + ":"@ + text::decimal(port as nat),
        !is_https && port != 80 ==> out@ == host@ + ":"@ + text::decimal(port as nat),
{
}

/// A response may grow to 256 MiB, and is kept in the order in which it comes.
pub proof fn law_response_grows(buf: &mut Vec<u8>, chunk: &[u8], r: Result<(), String>)
    requires
        call_ensures(take_response_bytes, (buf, chunk), r),
    ensures
        r is Ok <==> old(buf)@.len() + chunk@.len() <= 268_435_456,
        r is Ok ==> final(buf)@ == old(buf)@ + chunk@,
        r is Err ==> final(buf)@ == old(buf)@,
{
}

/// A response that announces more than 256 MiB is not read.
pub proof fn law_announced_length(length: Option<u64>, r: Result<(), String>)
    requires
        call_ensures(check_content_length, (length,), r),
    ensures
        r is Err <==> (length matches Some(n) && n > 268_435_456),
{
}

/// A body is the text that it encodes.
pub proof fn law_body_text(bytes: &[u8], words: Seq<char>, r: Result<String, String>)
    requires
        call_ensures(body_text, (bytes,), r),
        bytes@ == encode_utf8(words),
    ensures
        r matches Ok(s) && s@ == words,
{
    vstd::utf8::encode_utf8_valid_utf8(words);
    vstd::utf8::encode_utf8_decode_utf8(words);
}

/// A fetch hands out the body that it gets and the error that it gets, goes on
/// at the place of a redirect, and follows five of them at most.
pub proof fn law_fetch_goes_on(
    f: &mut Fetch,
    to: &str,
    place: Result<UrlParts, String>,
    step: FetchStep,
)
    requires
        call_ensures(Fetch::redirect, (f, to, place), step),
    ensures
        place matches Ok(u) ==> old(f).redirects < 5 ==> step is Again && final(f).current@ == u@
            && final(f).redirects == old(f).redirects + 1 && final(f).start@ == old(f).start@,
        place is Ok && old(f).redirects >= 5 ==> step is Fail && *final(f) == *old(f),
        place is Err ==> step is Fail && *final(f) == *old(f),
{
}

pub proof fn law_fetch_ends(f: &mut Fetch, outcome: Result<Outcome, String>, step: FetchStep)
    requires
        call_ensures(Fetch::on_response, (f, outcome), step),
    ensures
        outcome matches Ok(Outcome::Body(b)) ==> (step matches FetchStep::Done(d) && d@ == b@),
        outcome matches Err(e) ==> (step matches FetchStep::Fail(why) && why@ == e@),
        outcome matches Ok(Outcome::Redirect(_)) ==> !(step is Done) && (step is Again ==> old(f).redirects < 5 && final(f).redirects == old(f).redirects + 1),
{
}

/// A name is found at its first place in a list, and not found exactly where it
/// does not stand in it.
pub proof fn law_name_is_found(registry: &Vec<String>, name: &str, out: Option<usize>)
    requires
        call_ensures(find_name, (registry, name), out),
    ensures
        out matches Some(i) ==> i < registry@.len() && registry@[i as int]@ == name@ && forall|j: int|
            0 <= j < i ==> (#[trigger] registry@[j])@ != name@,
        out is None ==> forall|j: int| 0 <= j < registry@.len() ==> (#[trigger] registry@[j])@ != name@,
{
    let all = text::texts(registry@);
    lemma_index_of(all, name@);
    match out {
        Some(i) => {
            assert(all[i as int] == registry@[i as int]@);
            assert forall|j: int| 0 <= j < i implies (#[trigger] registry@[j])@ != name@ by {
                assert(all[j] == registry@[j]@);
            }
        },
        None => {
            assert forall|j: int| 0 <= j < registry@.len() implies (#[trigger] registry@[j])@ != name@ by {
                assert(all[j] == registry@[j]@);
            }
        },
    }
}

proof fn lemma_index_of(all: Seq<Seq<char>>, name: Seq<char>)
    ensures
        match index_of(all, name) {
            Some(i) => 0 <= i < all.len() && all[i] == name && forall|j: int|
                0 <= j < i ==> #[trigger] all[j] != name,
            None => forall|j: int| 0 <= j < all.len() ==> #[trigger] all[j] != name,
        },
    decreases all.len(),
{
    if all.len() > 0 {
        let rest = all.drop_first();
        lemma_index_of(rest, name);
        assert forall|j: int| 0 < j < all.len() implies #[trigger] all[j] == rest[j - 1] by {}
    }
}

/// Downloads go through the first proxy of the configuration where the registry
/// knows it by its name, and through none otherwise.
pub proof fn law_first_proxy_is_used(
    names: &Vec<Option<String>>,
    registry: &Vec<String>,
    out: Option<usize>,
)
    requires
        call_ensures(first_named_proxy, (Some(names), registry), out),
    ensures
        names@.len() == 0 || names@[0] is None ==> out is None,
        names@.len() > 0 && names@[0] is Some ==> {
            let name = (names@[0]->0)@;
            &&& out matches Some(i) ==> i < registry@.len() && registry@[i as int]@ == name && forall|
                j: int,
            |
                0 <= j < i ==> (#[trigger] registry@[j])@ != name
            &&& out is None ==> forall|j: int|
                0 <= j < registry@.len() ==> (#[trigger] registry@[j])@ != name
        },
{
    let all = text::texts(registry@);
    if names@.len() > 0 && names@[0] is Some {
        let name = (names@[0]->0)@;
        lemma_index_of(all, name);
        assert(registry.len() == registry@.len());
        assert(crate::config::internal_http::opt_texts(names@)[0] == Some(name));
        assert forall|j: int| 0 <= j < registry@.len() implies (#[trigger] registry@[j])@ == all[j] by {}
    }
}

/// A response is judged by its head, of which up to sixty-four headers are
/// read.
pub proof fn law_response_is_judged(
    buf: &[u8],
    head: &ResponseHead,
    alone: Result<Outcome, String>,
    r: Result<Outcome, String>,
)
    requires
        call_ensures(crate::config::internal_http::parse_response, (buf,), r),
        call_ensures(judge_response, (head, buf), alone),
        head@ == crate::config::internal_http::response_head(buf@, 64),
    ensures
        r is Ok <==> alone is Ok,
        r matches Ok(o) ==> o@ == alone->Ok_0@,
        r matches Err(e) ==> e@ == alone->Err_0@,
{
}

/// A download begins with the address that it is asked for.
pub proof fn law_download_begins(url: &str, r: Result<Fetch, String>)
    requires
        call_ensures(Fetch::start, (url,), r),
    ensures
        crate::config::internal_http::url_of(url@) matches Ok(u) ==> (r matches Ok(f) && f.current@
            == u && f.redirects == 0),
        crate::config::internal_http::url_of(url@) matches Err(e) ==> (r matches Err(what) && what@
            == "invalid URL '"@ + url@ + "': "@ + e),
{
}

} // verus!
