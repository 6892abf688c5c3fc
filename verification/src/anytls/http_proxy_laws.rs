//! What holds of every client of the HTTP proxy.
use crate::anytls::error::AnyTlsError;
use crate::anytls::http_proxy::{
    bare_host, build_forward_request, determine_target, host_header_of, host_port, is_host_line,
    forwarded_lines, has_host_line, host_line, on_stream, parse_http_request, plain_target,
    split_host_port, HeaderReader, HeaderStep, ParsedRequest, StreamStep, Target,
};
use crate::text;
use crate::text_laws;
use crate::text_laws::{all_visible, with_ends};
use vstd::prelude::*;
use vstd::utf8::encode_utf8;

verus! {

/// Whether a host is written without a colon, brackets, a slash or white space.
pub open spec fn clean_host(host: Seq<char>) -> bool {
    &&& host.len() > 0
    &&& all_visible(host)
    &&& !host.contains(':') && !host.contains('[') && !host.contains(']') && !host.contains('/')
}

/// Whether a method is `CONNECT`, up to case.
pub open spec fn is_connect(method: Seq<char>) -> bool {
    &&& method.len() == 7
    &&& text_laws::same_letter(method[0], 'C') && text_laws::same_letter(method[1], 'O')
    &&& text_laws::same_letter(method[2], 'N') && text_laws::same_letter(method[3], 'N')
    &&& text_laws::same_letter(method[4], 'E') && text_laws::same_letter(method[5], 'C')
    &&& text_laws::same_letter(method[6], 'T')
}

proof fn lemma_connect(method: Seq<char>)
    ensures
        is_connect(method) == (text::ascii_lower(method) == text::ascii_lower("CONNECT"@)),
{
    reveal_strlit("CONNECT");
    let a = text::ascii_lower(method);
    let b = text::ascii_lower("CONNECT"@);
    if method.len() == 7 {
        text_laws::lemma_same_letter(method[0], 'C');
        text_laws::lemma_same_letter(method[1], 'O');
        text_laws::lemma_same_letter(method[2], 'N');
        text_laws::lemma_same_letter(method[3], 'N');
        text_laws::lemma_same_letter(method[4], 'E');
        text_laws::lemma_same_letter(method[5], 'C');
        text_laws::lemma_same_letter(method[6], 'T');
        assert(a[0] == text::lower_char(method[0]) && b[0] == text::lower_char('C'));
        assert(a[1] == text::lower_char(method[1]) && b[1] == text::lower_char('O'));
        assert(a[2] == text::lower_char(method[2]) && b[2] == text::lower_char('N'));
        assert(a[3] == text::lower_char(method[3]) && b[3] == text::lower_char('N'));
        assert(a[4] == text::lower_char(method[4]) && b[4] == text::lower_char('E'));
        assert(a[5] == text::lower_char(method[5]) && b[5] == text::lower_char('C'));
        assert(a[6] == text::lower_char(method[6]) && b[6] == text::lower_char('T'));
        if is_connect(method) {
            assert(a =~= b);
        }
    } else {
        assert(a.len() != b.len());
    }
}

proof fn lemma_bare(host: Seq<char>)
    requires
        clean_host(host),
    ensures
        bare_host(host) == host,
{
    assert(text_laws::visible(host[0]) && text_laws::visible(host[host.len() - 1]));
    text_laws::lemma_trim_visible(host);
    assert(host.contains(host[0]) && host.contains(host[host.len() - 1]));
}

/// A host alone has the usual port.
proof fn lemma_host_alone(host: Seq<char>, usual: u16)
    requires
        clean_host(host),
    ensures
        host_port(host, usual) == (host, usual),
{
    lemma_bare(host);
    text_laws::lemma_last_of_none(host, ':');
}

/// A host with a port behind a colon has that port.
proof fn lemma_host_and_port(host: Seq<char>, port: u16, usual: u16)
    requires
        clean_host(host),
    ensures
        host_port(host + seq![':'] + text::decimal(port as nat), usual) == (host, port),
{
    let digits = text::decimal(port as nat);
    let value = host + seq![':'] + digits;
    text_laws::law_decimal(port as nat);
    assert(!digits.contains(':')) by {
        if digits.contains(':') {
            let i = choose|i: int| 0 <= i < digits.len() && digits[i] == ':';
            assert(0x30 <= digits[i] as int <= 0x39);
        }
    }
    text_laws::lemma_last_of(host, ':', digits);
    assert(value.take(host.len() as int) =~= host);
    assert(value.skip(host.len() as int + 1) =~= digits);
    text_laws::lemma_decimal_read(port as nat, 0xffff);
    lemma_bare(host);
}

/// A host without a port goes to the usual one, a host with a port to that.
pub proof fn law_host_and_port(
    value: &str,
    usual: u16,
    out: (String, u16),
    host: Seq<char>,
    port: u16,
)
    requires
        call_ensures(split_host_port, (value, usual), out),
        clean_host(host),
    ensures
        value@ == host ==> out.0@ == host && out.1 == usual,
        value@ == host + seq![':'] + text::decimal(port as nat) ==> out.0@ == host && out.1 == port,
        value@ == seq!['['] + host + seq![']'] ==> out.0@ == host && out.1 == usual,
{
    lemma_host_alone(host, usual);
    lemma_host_and_port(host, port, usual);
    if value@ == seq!['['] + host + seq![']'] {
        lemma_brackets(host);
        assert(!value@.contains(':')) by {
            if value@.contains(':') {
                let i = choose|i: int| 0 <= i < value@.len() && value@[i] == ':';
                assert(host[i - 1] == ':');
            }
        }
        text_laws::lemma_last_of_none(value@, ':');
    }
}

proof fn lemma_brackets(host: Seq<char>)
    requires
        clean_host(host),
    ensures
        bare_host(seq!['['] + host + seq![']']) == host,
{
    let s = seq!['['] + host + seq![']'];
    text_laws::lemma_trim_visible(s);
    assert(host.contains(host[0]) && host.contains(host[host.len() - 1]));
    assert(s.drop_first() =~= host + seq![']']);
    assert((host + seq![']'])[0] == host[0]);
    reveal_with_fuel(text::trim_char_start_of, 3);
    reveal_with_fuel(text::trim_char_end_of, 3);
    assert(text::trim_char_start_of(s, '[') == host + seq![']']);
    assert(text::trim_char_of(s, '[') == host + seq![']']);
    assert((host + seq![']']).drop_last() =~= host);
    assert(text::trim_char_of(host + seq![']'], ']') == host);
}

/// A request with an absolute target goes to the host that it names: to port 80
/// for `http`, to port 443 for `https`, and to the port that it names where it
/// names one. Its path is what follows, a slash where nothing does.
pub proof fn law_absolute_target(
    method: &str,
    target: &str,
    headers: &Vec<String>,
    r: Result<Target, AnyTlsError>,
    secure: bool,
    host: Seq<char>,
    named: Option<u16>,
    path: Seq<char>,
)
    requires
        call_ensures(determine_target, (method, target, headers), r),
        !is_connect(method@),
        clean_host(host),
        path.len() > 0 ==> path[0] == '/',
        target@ == (if secure {
            "https://"@
        } else {
            "http://"@
        }) + host + (match named {
            Some(port) => seq![':'] + text::decimal(port as nat),
            None => Seq::empty(),
        }) + path,
    ensures
        r matches Ok(o) && o.0@ == host && !o.3,
        named is None && !secure ==> r->Ok_0.1 == 80,
        named is None && secure ==> r->Ok_0.1 == 443,
        named matches Some(port) ==> r->Ok_0.1 == port,
        path.len() > 0 ==> r->Ok_0.2@ == path,
        path.len() == 0 ==> r->Ok_0.2@ == "/"@,
{
    let behind = match named {
        Some(port) => seq![':'] + text::decimal(port as nat),
        None => Seq::empty(),
    };
    let place = host + behind;
    let usual = if secure {
        443u16
    } else {
        80u16
    };
    lemma_connect(method@);
    lemma_no_slash(host, named);
    assert(target@ =~= (if secure {
        "https://"@
    } else {
        "http://"@
    }) + place + path);
    lemma_plain_target(target@, text::texts(headers@), secure, place, path);
    reveal_strlit("/");
    match named {
        Some(port) => {
            lemma_host_and_port(host, port, usual);
            assert(place =~= host + seq![':'] + text::decimal(port as nat));
        },
        None => {
            lemma_host_alone(host, usual);
            assert(place =~= host);
        },
    }
}

proof fn lemma_no_slash(host: Seq<char>, named: Option<u16>)
    requires
        clean_host(host),
    ensures
        !(host + match named {
            Some(port) => seq![':'] + text::decimal(port as nat),
            None => Seq::empty(),
        }).contains('/'),
{
    let place = host + match named {
        Some(port) => seq![':'] + text::decimal(port as nat),
        None => Seq::empty(),
    };
    if place.contains('/') {
        let i = choose|i: int| 0 <= i < place.len() && place[i] == '/';
        if i < host.len() {
            assert(host[i] == '/');
        } else {
            let d = text::decimal(named->0 as nat);
            text_laws::law_decimal(named->0 as nat);
            if i > host.len() {
                assert(d[i - host.len() - 1] == '/');
                assert(0x30 <= d[i - host.len() - 1] as int);
            }
        }
    }
}

proof fn lemma_plain_target(
    target: Seq<char>,
    headers: Seq<Seq<char>>,
    secure: bool,
    place: Seq<char>,
    path: Seq<char>,
)
    requires
        !place.contains('/'),
        path.len() > 0 ==> path[0] == '/',
        target == (if secure {
            "https://"@
        } else {
            "http://"@
        }) + place + path,
    ensures
        plain_target(target, headers).0 == place,
        !secure ==> plain_target(target, headers).1 == 80,
        secure ==> plain_target(target, headers).1 == 443,
        path.len() > 0 ==> plain_target(target, headers).2 == path,
        path.len() == 0 ==> plain_target(target, headers).2 == "/"@,
{
    reveal_strlit("http://");
    reveal_strlit("https://");
    let rest = place + path;
    assert forall|i: int| 0 <= i < place.len() implies #[trigger] rest[i] != '/' by {
        assert(place.contains(place[i]));
    }
    text::lemma_first_of_is(rest, '/', place.len() as int);
    assert(rest.take(place.len() as int) =~= place);
    assert(rest.skip(place.len() as int) =~= path);
    if secure {
        assert(target.take(8) =~= "https://"@);
        assert(target.skip(8) =~= rest);
        assert(target.take(7)[4] == 's');
    } else {
        assert(target.take(7) =~= "http://"@);
        assert(target.skip(7) =~= rest);
        if target.len() >= 8 {
            assert(target.take(8)[4] == ':');
        }
    }
    if path.len() == 0 {
        assert(rest =~= place);
    }
}

/// A CONNECT goes to the host and the port that it names, to port 443 where it
/// names no port, and has no path.
pub proof fn law_connect_target(
    method: &str,
    target: &str,
    headers: &Vec<String>,
    r: Result<Target, AnyTlsError>,
    host: Seq<char>,
    named: Option<u16>,
)
    requires
        call_ensures(determine_target, (method, target, headers), r),
        is_connect(method@),
        clean_host(host),
        target@ == host + match named {
            Some(port) => seq![':'] + text::decimal(port as nat),
            None => Seq::empty(),
        },
    ensures
        r matches Ok(o) && o.0@ == host && o.3 && o.2@.len() == 0 && o.1 == match named {
            Some(port) => port,
            None => 443,
        },
{
    lemma_connect(method@);
    match named {
        Some(port) => {
            lemma_host_and_port(host, port, 443);
            assert(target@ =~= host + seq![':'] + text::decimal(port as nat));
        },
        None => {
            lemma_host_alone(host, 443);
            assert(target@ =~= host);
        },
    }
}

/// Whether a line is a `Host` header with this value and blanks around it.
pub open spec fn names_host(line: Seq<char>, value: Seq<char>) -> bool {
    exists|front: Seq<char>, back: Seq<char>| #[trigger]
        text_laws::all_blank(front) && #[trigger] text_laws::all_blank(back) && (line
            == seq!['H', 'o', 's', 't', ':'] + front + value + back || line
            == seq!['h', 'o', 's', 't', ':'] + front + value + back)
}

/// A request with a path alone goes to the host of its first `Host` header, to
/// port 80 where that names no port; without one it is refused.
pub proof fn law_origin_target(
    method: &str,
    target: &str,
    headers: &Vec<String>,
    r: Result<Target, AnyTlsError>,
    at: int,
    host: Seq<char>,
    named: Option<u16>,
)
    requires
        call_ensures(determine_target, (method, target, headers), r),
        !is_connect(method@),
        target@.len() > 0,
        target@[0] == '/',
        0 <= at < headers@.len(),
        clean_host(host),
        names_host(
            headers@[at]@,
            host + match named {
                Some(port) => seq![':'] + text::decimal(port as nat),
                None => Seq::empty(),
            },
        ),
        forall|i: int| 0 <= i < at ==> (#[trigger] headers@[i])@.len() < 5 || headers@[i]@[4] != ':',
    ensures
        r matches Ok(o) && o.0@ == host && !o.3 && o.2@ == target@ && o.1 == match named {
            Some(port) => port,
            None => 80,
        },
{
    reveal_strlit("http://");
    reveal_strlit("https://");
    reveal_strlit("Host:");
    reveal_strlit("host:");
    lemma_connect(method@);
    let t = target@;
    assert(!text::has_prefix(t, "http://"@)) by {
        if text::has_prefix(t, "http://"@) {
            assert(t.take(7)[0] == 'h');
        }
    }
    assert(!text::has_prefix(t, "https://"@)) by {
        if text::has_prefix(t, "https://"@) {
            assert(t.take(8)[0] == 'h');
        }
    }
    let behind = match named {
        Some(port) => seq![':'] + text::decimal(port as nat),
        None => Seq::empty(),
    };
    let value = host + behind;
    let all = text::texts(headers@);
    assert(text_laws::visible(value[0]) && text_laws::visible(value.last())) by {
        assert(text_laws::visible(host[0]) && text_laws::visible(host[host.len() - 1]));
        if named is Some {
            text_laws::law_decimal(named->0 as nat);
            let d = text::decimal(named->0 as nat);
            assert(value.last() == d[d.len() - 1]);
            assert(0x30 <= d[d.len() - 1] as int <= 0x39);
        } else {
            assert(value =~= host);
        }
    }
    lemma_host_header(all, at, value);
    match named {
        Some(port) => {
            lemma_host_and_port(host, port, 80);
            assert(value =~= host + seq![':'] + text::decimal(port as nat));
        },
        None => {
            lemma_host_alone(host, 80);
            assert(value =~= host);
        },
    }
}

proof fn lemma_host_header(all: Seq<Seq<char>>, at: int, value: Seq<char>)
    requires
        0 <= at < all.len(),
        names_host(all[at], value),
        value.len() > 0,
        text_laws::visible(value[0]),
        text_laws::visible(value.last()),
        forall|i: int| 0 <= i < at ==> (#[trigger] all[i]).len() < 5 || all[i][4] != ':',
    ensures
        host_header_of(all) == Some(value),
    decreases at,
{
    reveal_strlit("Host:");
    reveal_strlit("host:");
    let first = all[0];
    if at == 0 {
        let (front, back) = choose|front: Seq<char>, back: Seq<char>| #[trigger]
            text_laws::all_blank(front) && #[trigger] text_laws::all_blank(back) && (first
                == seq!['H', 'o', 's', 't', ':'] + front + value + back || first
                == seq!['h', 'o', 's', 't', ':'] + front + value + back);
        assert(first.take(5) =~= seq!['H', 'o', 's', 't', ':'] || first.take(5)
            =~= seq!['h', 'o', 's', 't', ':']);
        assert("Host:"@ =~= seq!['H', 'o', 's', 't', ':']);
        assert("host:"@ =~= seq!['h', 'o', 's', 't', ':']);
        assert(first.skip(5) =~= front + value + back);
        text_laws::lemma_trimmed(front, value, back);
    } else {
        assert(!text::has_prefix(first, "Host:"@) && !text::has_prefix(first, "host:"@)) by {
            if first.len() >= 5 {
                assert(first.take(5)[4] == first[4]);
            }
        }
        assert(all.drop_first()[at - 1] == all[at]);
        assert forall|i: int| 0 <= i < at - 1 implies (#[trigger] all.drop_first()[i]).len() < 5
            || all.drop_first()[i][4] != ':' by {
            assert(all.drop_first()[i] == all[i + 1]);
        }
        lemma_host_header(all.drop_first(), at - 1, value);
    }
}

/// A request that names no host at all is refused.
pub proof fn law_no_host(
    method: &str,
    target: &str,
    headers: &Vec<String>,
    r: Result<Target, AnyTlsError>,
)
    requires
        call_ensures(determine_target, (method, target, headers), r),
        !is_connect(method@),
        target@.len() > 0,
        target@[0] == '/',
        forall|i: int|
            0 <= i < headers@.len() ==> (#[trigger] headers@[i])@.len() < 5 || headers@[i]@[4] != ':',
    ensures
        r matches Err(e) && e.is_protocol("Host header missing for HTTP request"@),
{
    reveal_strlit("http://");
    reveal_strlit("https://");
    lemma_connect(method@);
    let t = target@;
    if text::has_prefix(t, "http://"@) {
        assert(t.take(7)[0] == 'h');
    }
    if text::has_prefix(t, "https://"@) {
        assert(t.take(8)[0] == 'h');
    }
    lemma_no_host_header(text::texts(headers@));
}

proof fn lemma_no_host_header(all: Seq<Seq<char>>)
    requires
        forall|i: int| 0 <= i < all.len() ==> (#[trigger] all[i]).len() < 5 || all[i][4] != ':',
    ensures
        host_header_of(all) is None,
    decreases all.len(),
{
    reveal_strlit("Host:");
    reveal_strlit("host:");
    if all.len() > 0 {
        let first = all[0];
        if first.len() >= 5 {
            assert(first.take(5)[4] == first[4]);
        }
        assert forall|i: int| 0 <= i < all.drop_first().len() implies (
        #[trigger] all.drop_first()[i]).len() < 5 || all.drop_first()[i][4] != ':' by {
            assert(all.drop_first()[i] == all[i + 1]);
        }
        lemma_no_host_header(all.drop_first());
    }
}

/// A request is taken apart into its method, target, version and headers, and
/// goes where those say; its body is kept as it is.
pub proof fn law_request_taken_apart(
    header: &str,
    body: Vec<u8>,
    r: Result<ParsedRequest, AnyTlsError>,
    method: &str,
    target: &str,
    version: Seq<char>,
    headers: &Vec<String>,
    to: Result<Target, AnyTlsError>,
)
    requires
        call_ensures(parse_http_request, (header, body), r),
        call_ensures(determine_target, (method, target, headers), to),
        method@.len() > 0 && all_visible(method@),
        target@.len() > 0 && all_visible(target@),
        version.len() > 0 && all_visible(version),
        forall|i: int|
            0 <= i < headers@.len() ==> (#[trigger] headers@[i])@.len() > 0
                && !headers@[i]@.contains('\r'),
        header@ == method@ + seq![' '] + target@ + seq![' '] + version + seq!['\r', '\n']
            + with_ends(text::texts(headers@)) + seq!['\r', '\n'],
    ensures
        match to {
            Ok(o) => r matches Ok(q) && q.method@ == method@ && q.version@ == version && q.host@
                == o.0@ && q.port == o.1 && q.path@ == o.2@ && q.is_connect == o.3 && q.body@
                == body@ && text::texts(q.headers@) == text::texts(headers@),
            Err(e) => r matches Err(f) && e is Protocol && f is Protocol && e->Protocol_0@
                == f->Protocol_0@,
        },
{
    let line = method@ + seq![' '] + target@ + seq![' '] + version;
    let all = text::texts(headers@);
    let pieces = seq![line] + all;
    text_laws::lemma_three_words(method@, target@, version);
    assert(!line.contains('\r')) by {
        if line.contains('\r') {
            let i = choose|i: int| 0 <= i < line.len() && line[i] == '\r';
            let m = method@.len() as int;
            let t = target@.len() as int;
            if i < m {
                assert(text_laws::visible(method@[i]));
            } else if m < i < m + 1 + t {
                assert(text_laws::visible(target@[i - m - 1]));
            } else if i > m + 1 + t {
                assert(text_laws::visible(version[i - m - t - 2]));
            }
        }
    }
    assert forall|i: int| 0 <= i < pieces.len() implies !(#[trigger] pieces[i]).contains('\r') by {
        if i > 0 {
            assert(pieces[i] == headers@[i - 1]@);
        }
    }
    text_laws::lemma_with_ends_front(pieces);
    assert(pieces.drop_first() =~= all);
    let tail = seq!['\r', '\n'];
    assert(header@ =~= with_ends(pieces) + tail);
    text_laws::lemma_crlf_lines(pieces, tail);
    let none = Seq::<char>::empty();
    assert(text::split_crlf_of(tail) =~= seq![none, none]) by {
        assert(tail.take(0) =~= none);
        assert(tail.skip(2) =~= none);
        reveal_with_fuel(text::split_crlf_of, 2);
    }
    let whole = text::split_crlf_of(header@);
    assert(whole =~= pieces + seq![none, none]);
    assert(whole[0] == line);
    let keep = |l: Seq<char>| l.len() > 0;
    assert(whole.drop_first() =~= all.push(none).push(none));
    all.lemma_filter_push(none, keep);
    all.push(none).lemma_filter_push(none, keep);
    assert(all.filter(keep) =~= all) by {
        assert forall|i: int| 0 <= i < all.len() implies keep(#[trigger] all[i]) by {
            assert(all[i] == headers@[i]@);
        }
        lemma_filter_all(all, keep);
    }
}

proof fn lemma_filter_all(s: Seq<Seq<char>>, keep: spec_fn(Seq<char>) -> bool)
    requires
        forall|i: int| 0 <= i < s.len() ==> keep(#[trigger] s[i]),
    ensures
        s.filter(keep) == s,
    decreases s.len(),
{
    reveal(Seq::filter);
    if s.len() > 0 {
        let head = s.drop_last();
        assert forall|i: int| 0 <= i < head.len() implies keep(#[trigger] head[i]) by {
            assert(head[i] == s[i]);
        }
        lemma_filter_all(head, keep);
        assert(s =~= head.push(s.last()));
        assert(keep(s[s.len() - 1]));
    }
}

/// Whether a line is a `Host` header in any case.
pub open spec fn is_host_header(line: Seq<char>) -> bool {
    &&& line.len() >= 5
    &&& text_laws::same_letter(line[0], 'h') && text_laws::same_letter(line[1], 'o')
    &&& text_laws::same_letter(line[2], 's') && text_laws::same_letter(line[3], 't')
    &&& line[4] == ':'
}

proof fn lemma_host_line(line: Seq<char>)
    ensures
        is_host_header(line) == is_host_line(line),
{
    reveal_strlit("host:");
    let low = text::ascii_lower(line);
    if line.len() >= 5 {
        text_laws::lemma_same_letter(line[0], 'h');
        text_laws::lemma_same_letter(line[1], 'o');
        text_laws::lemma_same_letter(line[2], 's');
        text_laws::lemma_same_letter(line[3], 't');
        text_laws::lemma_same_letter(line[4], ':');
        let p = low.take(5);
        assert(p[0] == text::lower_char(line[0]));
        assert(p[1] == text::lower_char(line[1]));
        assert(p[2] == text::lower_char(line[2]));
        assert(p[3] == text::lower_char(line[3]));
        assert(p[4] == text::lower_char(line[4]));
        assert("host:"@.len() == 5);
        if is_host_header(line) {
            assert(p =~= "host:"@);
        }
        if is_host_line(line) {
            assert(p == "host:"@);
            assert(p[0] == 'h' && p[1] == 'o' && p[2] == 's' && p[3] == 't' && p[4] == ':');
        }
    }
}

/// The `Host` header of a forwarded request: the port is left out where it is
/// 80 or 443.
pub open spec fn host_named(host: Seq<char>, port: u16) -> Seq<char> {
    "Host: "@ + host + if port == 80 || port == 443 {
        Seq::empty()
    } else {
        seq![':'] + text::decimal(port as nat)
    }
}

/// A forwarded request has the method, the path and the version of the client's,
/// and all its headers in their order, with the `Host` header made out to where
/// it goes: in the place of the client's own, or behind the others.
pub proof fn law_request_forwarded(
    req: &ParsedRequest,
    out: Vec<u8>,
    before: Seq<Seq<char>>,
    own: Option<Seq<char>>,
    behind: Seq<Seq<char>>,
)
    requires
        call_ensures(build_forward_request, (req,), out),
        req.path@.len() > 0,
        forall|i: int|
            0 <= i < before.len() ==> (#[trigger] before[i]).len() > 0 && !is_host_header(before[i]),
        forall|i: int|
            0 <= i < behind.len() ==> (#[trigger] behind[i]).len() > 0 && !is_host_header(behind[i]),
        own matches Some(line) ==> is_host_header(line),
        own is None ==> behind.len() == 0,
        text::texts(req.headers@) == before + (match own {
            Some(line) => seq![line],
            None => Seq::empty(),
        }) + behind,
    ensures
        out@ == encode_utf8(
            req.method@ + seq![' '] + req.path@ + seq![' '] + req.version@ + seq!['\r', '\n']
                + with_ends(before.push(host_named(req.host@, req.port)) + behind) + seq![
                '\r',
                '\n',
            ],
        ),
{
    reveal_strlit(" ");
    reveal_strlit("\r\n");
    reveal_strlit(":");
    reveal_strlit("Host: ");
    let headers = text::texts(req.headers@);
    let host = req.host@;
    let port = req.port;
    let named = host_named(host, port);
    assert(" "@ =~= seq![' ']);
    assert("\r\n"@ =~= seq!['\r', '\n']);
    assert(":"@ =~= seq![':']);
    assert(host_line(host, port) =~= named + seq!['\r', '\n']);
    lemma_forwarded(before, host, port);
    assert(!has_host_line(before)) by {
        assert forall|i: int| 0 <= i < before.len() implies !is_host_line(#[trigger] before[i]) by {
            lemma_host_line(before[i]);
        }
    }
    match own {
        None => {
            assert(headers =~= before);
            assert(before.push(named) + behind =~= before.push(named));
            assert(before.push(named).drop_last() =~= before);
            assert(with_ends(before.push(named)) =~= with_ends(before) + host_line(host, port));
        },
        Some(line) => {
            lemma_host_line(line);
            assert(is_host_line(headers[before.len() as int]));
            assert(headers.take(before.len() as int + 1) =~= before.push(line));
            assert(before.push(line).drop_last() =~= before);
            assert(before.push(named).drop_last() =~= before);
            assert(forwarded_lines(before.push(line), host, port) =~= with_ends(
                before.push(named),
            ));
            lemma_forwarded_more(before.push(line), before.push(named), behind, host, port);
            assert(headers =~= before.push(line) + behind);
        },
    }
    let made = with_ends(before.push(named) + behind);
    assert(forwarded_lines(headers, host, port) + (if has_host_line(headers) {
        Seq::empty()
    } else {
        host_line(host, port)
    }) =~= made);
    let head = crate::anytls::http_proxy::forward_head(
        req.method@,
        req.path@,
        req.version@,
        headers,
        host,
        port,
    );
    assert(head =~= req.method@ + seq![' '] + req.path@ + seq![' '] + req.version@ + seq!['\r', '\n']
        + made + seq!['\r', '\n']);
}

proof fn lemma_forwarded(lines: Seq<Seq<char>>, host: Seq<char>, port: u16)
    requires
        forall|i: int|
            0 <= i < lines.len() ==> (#[trigger] lines[i]).len() > 0 && !is_host_header(lines[i]),
    ensures
        forwarded_lines(lines, host, port) == with_ends(lines),
    decreases lines.len(),
{
    reveal_strlit("\r\n");
    if lines.len() > 0 {
        let head = lines.drop_last();
        assert forall|i: int| 0 <= i < head.len() implies (#[trigger] head[i]).len() > 0
            && !is_host_header(head[i]) by {
            assert(head[i] == lines[i]);
        }
        lemma_forwarded(head, host, port);
        lemma_host_line(lines[lines.len() - 1]);
        assert(lines.last() == lines[lines.len() - 1]);
        assert("\r\n"@ =~= seq!['\r', '\n']);
        assert(forwarded_lines(lines, host, port) =~= with_ends(lines));
    }
}

proof fn lemma_forwarded_more(
    lines: Seq<Seq<char>>,
    made: Seq<Seq<char>>,
    more: Seq<Seq<char>>,
    host: Seq<char>,
    port: u16,
)
    requires
        forwarded_lines(lines, host, port) == with_ends(made),
        forall|i: int|
            0 <= i < more.len() ==> (#[trigger] more[i]).len() > 0 && !is_host_header(more[i]),
    ensures
        forwarded_lines(lines + more, host, port) == with_ends(made + more),
    decreases more.len(),
{
    reveal_strlit("\r\n");
    if more.len() > 0 {
        let head = more.drop_last();
        assert forall|i: int| 0 <= i < head.len() implies (#[trigger] head[i]).len() > 0
            && !is_host_header(head[i]) by {
            assert(head[i] == more[i]);
        }
        lemma_forwarded_more(lines, made, head, host, port);
        lemma_host_line(more[more.len() - 1]);
        assert((lines + more).drop_last() =~= lines + head);
        assert((made + more).drop_last() =~= made + head);
        assert((lines + more).last() == more.last());
        assert((made + more).last() == more.last());
        assert("\r\n"@ =~= seq!['\r', '\n']);
        assert(forwarded_lines(lines + more, host, port) =~= with_ends(made + more));
    } else {
        assert(lines + more =~= lines);
        assert(made + more =~= made);
    }
}

/// A CONNECT whose stream is there is answered with a 200 and tunnelled as it
/// is; any other request is forwarded with its body behind it, and nothing is
/// made up for the client. Without a stream the client gets a 502 and the cause
/// is told.
pub proof fn law_stream_decides(
    req: &ParsedRequest,
    opened: Result<(), AnyTlsError>,
    step: StreamStep,
    head: Vec<u8>,
)
    requires
        call_ensures(on_stream, (req, opened), step),
        call_ensures(build_forward_request, (req,), head),
    ensures
        opened is Ok && req.is_connect ==> (step matches StreamStep::Relay { to_client, to_proxy }
            && to_client@ == encode_utf8("HTTP/1.1 200 Connection Established\r\n\r\n"@)
            && to_proxy@.len() == 0),
        opened is Ok && !req.is_connect && req.body@.len() == 0 ==> (
        step matches StreamStep::Relay { to_client, to_proxy } && to_client@.len() == 0
            && to_proxy@.len() == 1 && to_proxy@[0]@ == head@),
        opened is Ok && !req.is_connect && req.body@.len() > 0 ==> (
        step matches StreamStep::Relay { to_client, to_proxy } && to_client@.len() == 0
            && to_proxy@.len() == 2 && to_proxy@[0]@ == head@ && to_proxy@[1]@ == req.body@),
        opened matches Err(e) ==> (step matches StreamStep::Fail { to_client, error } && error == e
            && to_client@ == encode_utf8(
            "HTTP/1.1 502 Bad Gateway\r\nContent-Length: 0\r\nConnection: close\r\n\r\n"@,
        )),
{
    reveal_strlit("HTTP/1.1 502 Bad Gateway\r\nContent-Length: 0\r\nConnection: close\r\n\r\n");
    reveal_strlit("HTTP/1.1 ");
    reveal_strlit(" ");
    reveal_strlit("Bad Gateway");
    reveal_strlit("\r\nContent-Length: 0\r\nConnection: close\r\n\r\n");
    lemma_five_zero_two();
    assert(crate::anytls::http_proxy::error_reply(502, "Bad Gateway"@)
        =~= "HTTP/1.1 502 Bad Gateway\r\nContent-Length: 0\r\nConnection: close\r\n\r\n"@);
}

proof fn lemma_five_zero_two()
    ensures
        text::decimal(502) == seq!['5', '0', '2'],
{
    reveal_with_fuel(text::decimal, 4);
    assert(text::digit_char(5) == '5' && text::digit_char(0) == '0' && text::digit_char(2) == '2');
    assert(text::decimal(502) =~= seq!['5', '0', '2']);
}

/// Whether a head ends at a place: `CR LF CR LF` stands in front of it.
pub open spec fn ends_at(b: Seq<u8>, end: int) -> bool {
    4 <= end <= b.len() && b[end - 4] == 13 && b[end - 3] == 10 && b[end - 2] == 13 && b[end - 1]
        == 10
}

/// A head is done with its first empty line, within 64 KiB; what came behind is
/// kept apart and nothing is lost.
pub proof fn law_head_is_read(r: &mut HeaderReader, chunk: &[u8], step: HeaderStep)
    requires
        call_ensures(HeaderReader::on_data, (r, chunk), step),
        chunk@.len() > 0,
        old(r).buf@.len() + chunk@.len() <= 65536,
    ensures
        final(r).buf@ == old(r).buf@ + chunk@,
        !(step is Fail),
        step is More <==> (forall|end: int| !#[trigger] ends_at(old(r).buf@ + chunk@, end)),
        step matches HeaderStep::Done { header, remaining } ==> {
            let all = old(r).buf@ + chunk@;
            &&& header@ + remaining@ == all
            &&& ends_at(all, header@.len() as int)
            &&& forall|end: int| end < header@.len() ==> !#[trigger] ends_at(all, end)
        },
{
    let all = old(r).buf@ + chunk@;
    let t = crate::anytls::http_proxy::header_terminator();
    assert forall|end: int| #[trigger] ends_at(all, end) == crate::octets::occurs_at(
        all,
        t,
        end - 4,
    ) by {
        if ends_at(all, end) {
            assert(all.subrange(end - 4, end) =~= t);
        }
        if crate::octets::occurs_at(all, t, end - 4) {
            let p = all.subrange(end - 4, end);
            assert(p == t);
            assert(p[0] == 13 && p[1] == 10 && p[2] == 13 && p[3] == 10);
        }
    }
    match step {
        HeaderStep::Done { header, remaining } => {
            assert(ends_at(all, header@.len() as int));
        },
        HeaderStep::More => {
            assert forall|end: int| !#[trigger] ends_at(all, end) by {
                assert(!crate::octets::occurs_at(all, t, end - 4));
            }
        },
        HeaderStep::Fail(_) => {},
    }
}

/// How a client is told that its tunnel is there, and that its request cannot
/// be served.
pub proof fn law_replies(code: u16, message: &str, good: Vec<u8>, bad: Vec<u8>)
    requires
        call_ensures(crate::anytls::http_proxy::send_connect_success, (), good),
        call_ensures(crate::anytls::http_proxy::send_http_error, (code, message), bad),
    ensures
        good@ == vstd::utf8::encode_utf8("HTTP/1.1 200 Connection Established\r\n\r\n"@),
        bad@ == vstd::utf8::encode_utf8(
            "HTTP/1.1 "@ + text::decimal(code as nat) + " "@ + message@
                + "\r\nContent-Length: 0\r\nConnection: close\r\n\r\n"@,
        ),
{
}

/// A request's head ends behind its first empty line.
pub proof fn law_head_end(buf: &[u8], end: Option<usize>, i: int)
    requires
        call_ensures(crate::anytls::http_proxy::find_header_end, (buf,), end),
        0 <= i && i + 4 <= buf@.len(),
        buf@.subrange(i, i + 4) == seq![13u8, 10u8, 13u8, 10u8],
        forall|j: int|
            0 <= j < i ==> #[trigger] buf@.subrange(j, j + 4) != seq![13u8, 10u8, 13u8, 10u8],
    ensures
        end == Some((i + 4) as usize),
{
    let t = crate::anytls::http_proxy::header_terminator();
    assert(t =~= seq![13u8, 10u8, 13u8, 10u8]);
    assert(crate::octets::occurs_at(buf@, t, i));
    assert(buf.len() == buf@.len());
    let e = end->0 as int;
    if e - 4 < i {
        assert(crate::octets::occurs_at(buf@, t, e - 4));
        assert(buf@.subrange(e - 4, e - 4 + 4) != seq![13u8, 10u8, 13u8, 10u8]);
    }
}

} // verus!
