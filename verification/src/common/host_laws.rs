//! What holds of every host that is looked up, sniffed or connected to.
use crate::clock::Instant;
use crate::common::host_lookup;
use crate::common::host_lookup::{
    hook_addrs, resolve_host, resolve_step, system_addrs, ResolveStep, SysDnsCache,
};
use crate::common::protect::{SocketStep, SocketUse};
use crate::common::sniff_http;
use crate::common::sniff_http::{host_in_headers, host_in_value, sniff_http, Header};
use crate::io_error::IoError;
use crate::net;
use crate::net::{IpAddr, SocketAddr};
use crate::text;
use crate::text_laws;
use crate::text_laws::{all_blank, alike, visible};
use vstd::prelude::*;
use vstd::utf8::encode_utf8;

verus! {

/// What the system found for a host is used again for sixty seconds, with the
/// port that is asked for, and no longer. Other hosts are not touched.
pub proof fn law_found_is_kept(
    cache: &mut SysDnsCache,
    after: SysDnsCache,
    host: &str,
    other: &str,
    addrs: &Vec<SocketAddr>,
    port: u16,
    now: Instant,
    later: Instant,
    done: (),
    got: Option<Vec<SocketAddr>>,
    before_other: Option<Vec<SocketAddr>>,
    after_other: Option<Vec<SocketAddr>>,
)
    requires
        call_ensures(SysDnsCache::sys_cache_put, (cache, host, addrs, now), done),
        after == *final(cache),
        call_ensures(SysDnsCache::sys_cache_get, (&after, host, port, later), got),
        call_ensures(SysDnsCache::sys_cache_get, (&*old(cache), other, port, later), before_other),
        call_ensures(SysDnsCache::sys_cache_get, (&after, other, port, later), after_other),
        other@ != host@,
        old(cache).on(),
        now.nanos <= later.nanos,
    ensures
        later.nanos - now.nanos > 60_000_000_000 ==> got is None,
        later.nanos - now.nanos <= 60_000_000_000 ==> (got matches Some(a) && a@.len()
            == addrs@.len() && forall|i: int|
            0 <= i < addrs@.len() ==> (#[trigger] a@[i]).ip == addrs@[i].ip && a@[i].port == port),
        before_other is Some <==> after_other is Some,
        before_other matches Some(a) ==> after_other->0@ == a@,
{
    assert(after.kept(host@) == Some((host_lookup::ips_of(addrs@), now)));
    assert(after.kept(other@) == old(cache).kept(other@));
}

/// A host that was dropped is not found again until the system found it.
pub proof fn law_dropped_is_gone(
    cache: &mut SysDnsCache,
    after: SysDnsCache,
    host: &str,
    port: u16,
    now: Instant,
    done: (),
    got: Option<Vec<SocketAddr>>,
)
    requires
        call_ensures(SysDnsCache::sys_cache_evict, (cache, host), done),
        after == *final(cache),
        call_ensures(SysDnsCache::sys_cache_get, (&after, host, port, now), got),
    ensures
        got is None,
{
    assert(after.kept(host@) is None);
}

/// An address needs no lookup; a name goes to the hook where there is one, and
/// otherwise to the cache, then to the system.
pub proof fn law_who_is_asked(
    cache: &SysDnsCache,
    host: &str,
    port: u16,
    hook: bool,
    now: Instant,
    kept: Option<Vec<SocketAddr>>,
    step: ResolveStep,
)
    requires
        call_ensures(resolve_step, (cache, host, port, hook, now), step),
        call_ensures(SysDnsCache::sys_cache_get, (cache, host, port, now), kept),
    ensures
        net::ip_of_text(host@) matches Some(ip) ==> (step matches ResolveStep::Ready(a) && a@.len()
            == 1 && a@[0].ip == ip && a@[0].port == port),
        net::ip_of_text(host@) is None && hook ==> step is AskHook,
        net::ip_of_text(host@) is None && !hook && kept is None ==> step is AskSystem,
        net::ip_of_text(host@) is None && !hook && kept is Some ==> (step matches ResolveStep::Ready(
            a,
        ) && a@ == kept->0@),
{
}

/// The address that the hook found is used with the port that is asked for.
pub proof fn law_hook_address(ip: IpAddr, port: u16, r: Result<Vec<SocketAddr>, IoError>)
    requires
        call_ensures(hook_addrs, (Ok::<IpAddr, IoError>(ip), port), r),
    ensures
        r matches Ok(a) && a@.len() == 1 && a@[0].ip == ip && a@[0].port == port,
{
}

/// What the system found is handed on whole, and the first address is the
/// host's.
pub proof fn law_system_addresses(
    cache: &mut SysDnsCache,
    host: &str,
    port: u16,
    addrs: Vec<SocketAddr>,
    now: Instant,
    r: Result<Vec<SocketAddr>, IoError>,
    first: Result<SocketAddr, IoError>,
)
    requires
        call_ensures(
            system_addrs,
            (cache, host, port, Ok::<Vec<SocketAddr>, IoError>(addrs), now),
            r,
        ),
        call_ensures(resolve_host, (Ok::<Vec<SocketAddr>, IoError>(addrs),), first),
    ensures
        addrs@.len() > 0 ==> r == Ok::<Vec<SocketAddr>, IoError>(addrs) && first == Ok::<
            SocketAddr,
            IoError,
        >(addrs@[0]),
        addrs@.len() == 0 ==> (r matches Err(e) && e.kind is InvalidInput) && *final(cache)
            == *old(cache),
{
}

/// Opening a socket takes its steps in this order, with the protector before
/// anything is connected or bound, and any step that fails ends it.
pub proof fn law_steps_in_order(
    i: int,
    for_use: SocketUse,
    order: Seq<SocketStep>,
    good: SocketStep,
    bad: SocketStep,
)
    requires
        order == (if for_use is Tcp {
            seq![
                SocketStep::Create,
                SocketStep::Protect,
                SocketStep::SetNonblocking,
                SocketStep::Open,
                SocketStep::AwaitWritable,
                SocketStep::TakeError,
                SocketStep::Ready,
            ]
        } else {
            seq![
                SocketStep::Create,
                SocketStep::Protect,
                SocketStep::SetNonblocking,
                SocketStep::Open,
                SocketStep::Ready,
            ]
        }),
        0 <= i < order.len() - 1,
        call_ensures(SocketStep::next, (order[i], for_use, true), good),
        call_ensures(SocketStep::next, (order[i], for_use, false), bad),
    ensures
        good == order[i + 1],
        bad is Failed,
{
}

/// Whether a text is another in lower case: the same up to case, and without
/// ASCII capitals.
pub open spec fn lowered(out: Seq<char>, s: Seq<char>) -> bool {
    alike(out, s) && forall|i: int|
        0 <= i < out.len() ==> !('A' <= #[trigger] out[i] && out[i] <= 'Z')
}

proof fn lemma_lowered(s: Seq<char>)
    ensures
        lowered(text::ascii_lower(s), s),
{
    let out = text::ascii_lower(s);
    text::lemma_lower_idempotent(s);
    text_laws::lemma_alike(out, s);
    assert forall|i: int| 0 <= i < out.len() implies !('A' <= #[trigger] out[i] && out[i]
        <= 'Z') by {
        assert(out[i] == text::lower_char(s[i]));
        lemma_lower_char(s[i]);
    }
}

proof fn lemma_lower_char(c: char)
    ensures
        !('A' <= text::lower_char(c) && text::lower_char(c) <= 'Z'),
{
    let x = c as u8;
    if 'A' <= c && c <= 'Z' {
        assert(x as int == c as int);
        assert(text::lower_char(c) as int == c as int + 32);
    }
}

/// The host in a header's value stands in front of the port, in brackets or
/// not, and is given in lower case.
pub proof fn law_host_in_value(
    value: &str,
    front: Seq<char>,
    host: Seq<char>,
    port: Seq<char>,
    back: Seq<char>,
    out: Option<String>,
)
    requires
        call_ensures(host_in_value, (value,), out),
        all_blank(front),
        all_blank(back),
        host.len() > 0,
        !port.contains(':'),
        port.len() > 0 ==> visible(port.last()),
        (!host.contains(':') && host[0] != '[' && visible(host[0]) && visible(host.last())
            && value@ == front + host + back) || (!host.contains(':') && host[0] != '[' && visible(
            host[0],
        ) && value@ == front + (host + seq![':'] + port) + back) || (!host.contains(']') && value@
            == front + (seq!['['] + host + seq![']']) + back) || (!host.contains(']') && value@
            == front + (seq!['['] + host + seq![']'] + seq![':'] + port) + back),
    ensures
        out matches Some(h) && lowered(h@, host),
{
    lemma_lowered(host);
    if !host.contains(':') && host[0] != '[' && visible(host[0]) && visible(host.last()) && value@
        == front + host + back {
        text_laws::lemma_trimmed(front, host, back);
        text_laws::lemma_first_piece(host, ':', port);
    } else if !host.contains(':') && host[0] != '[' && visible(host[0]) && value@ == front + (host
        + seq![':'] + port) + back {
        let s = host + seq![':'] + port;
        assert(s[0] == host[0]);
        assert(s.last() == if port.len() > 0 {
            port.last()
        } else {
            ':'
        });
        text_laws::lemma_trimmed(front, s, back);
        text_laws::lemma_first_piece(host, ':', port);
    } else if value@ == front + (seq!['['] + host + seq![']']) + back {
        lemma_bracketed(front, host, Seq::empty(), back);
        assert(seq!['['] + host + seq![']'] + Seq::<char>::empty() =~= seq!['['] + host + seq![
            ']',
        ]);
    } else {
        lemma_bracketed(front, host, seq![':'] + port, back);
        assert(seq!['['] + host + seq![']'] + (seq![':'] + port) =~= seq!['['] + host + seq![']']
            + seq![':'] + port);
    }
}

proof fn lemma_bracketed(front: Seq<char>, host: Seq<char>, rest: Seq<char>, back: Seq<char>)
    requires
        all_blank(front),
        all_blank(back),
        host.len() > 0,
        !host.contains(']'),
        rest.len() > 0 ==> visible(rest.last()),
    ensures
        sniff_http::host_in(front + (seq!['['] + host + seq![']'] + rest) + back) == Some(
            text::ascii_lower(host),
        ),
{
    let s = seq!['['] + host + seq![']'] + rest;
    assert(s[0] == '[');
    assert(s.last() == if rest.len() > 0 {
        rest.last()
    } else {
        ']'
    });
    text_laws::lemma_trimmed(front, s, back);
    let t = s.drop_first();
    assert forall|i: int| 0 <= i < host.len() implies #[trigger] t[i] != ']' by {
        assert(t[i] == host[i]);
        assert(host.contains(host[i]));
    }
    assert(t[host.len() as int] == ']');
    text::lemma_first_of_is(t, ']', host.len() as int);
    assert(t.take(host.len() as int) =~= host);
}

/// The first header named `host`, in any case, decides; the others are passed
/// over.
pub proof fn law_host_header_decides(
    headers: &Vec<Header>,
    i: int,
    value: &str,
    alone: Option<String>,
    out: Option<String>,
)
    requires
        call_ensures(host_in_headers, (headers,), out),
        call_ensures(host_in_value, (value,), alone),
        0 <= i < headers@.len(),
        alike(headers@[i].0@, "host"@),
        headers@[i].1@ == encode_utf8(value@),
        forall|j: int| 0 <= j < i ==> !alike((#[trigger] headers@[j]).0@, "host"@),
    ensures
        out is Some <==> alone is Some,
        out matches Some(h) ==> h@ == alone->0@,
{
    let models = sniff_http::header_models(headers@);
    assert(models[i] == (headers@[i].0@, headers@[i].1@));
    assert forall|j: int| 0 <= j < i implies !alike((#[trigger] models[j]).0, "host"@) by {
        assert(models[j] == (headers@[j].0@, headers@[j].1@));
    }
    vstd::utf8::encode_utf8_valid_utf8(value@);
    vstd::utf8::encode_utf8_decode_utf8(value@);
    lemma_first_host(models, i);
}

proof fn lemma_first_host(models: Seq<sniff_http::HeaderModel>, i: int)
    requires
        0 <= i < models.len(),
        alike(models[i].0, "host"@),
        vstd::utf8::valid_utf8(models[i].1),
        forall|j: int| 0 <= j < i ==> !alike((#[trigger] models[j]).0, "host"@),
    ensures
        sniff_http::host_of(models) == sniff_http::host_in(vstd::utf8::decode_utf8(models[i].1)),
    decreases models.len(),
{
    text_laws::lemma_alike(models[0].0, "host"@);
    if i > 0 {
        assert(!alike(models[0].0, "host"@));
        let rest = models.drop_first();
        assert forall|j: int| 0 <= j < i - 1 implies !alike((#[trigger] rest[j]).0, "host"@) by {
            assert(rest[j] == models[j + 1]);
        }
        lemma_first_host(rest, i - 1);
    }
}

/// Without a header named `host` there is no host.
pub proof fn law_no_host_header(headers: &Vec<Header>, out: Option<String>)
    requires
        call_ensures(host_in_headers, (headers,), out),
        forall|j: int| 0 <= j < headers@.len() ==> !alike((#[trigger] headers@[j]).0@, "host"@),
    ensures
        out is None,
{
    let models = sniff_http::header_models(headers@);
    assert forall|j: int| 0 <= j < models.len() implies !alike((#[trigger] models[j]).0, "host"@) by {
        assert(models[j] == (headers@[j].0@, headers@[j].1@));
    }
    lemma_no_host(models);
}

proof fn lemma_no_host(models: Seq<sniff_http::HeaderModel>)
    requires
        forall|j: int| 0 <= j < models.len() ==> !alike((#[trigger] models[j]).0, "host"@),
    ensures
        sniff_http::host_of(models) is None,
    decreases models.len(),
{
    if models.len() > 0 {
        assert(!alike(models[0].0, "host"@));
        text_laws::lemma_alike(models[0].0, "host"@);
        let rest = models.drop_first();
        assert forall|j: int| 0 <= j < rest.len() implies !alike((#[trigger] rest[j]).0, "host"@) by {
            assert(rest[j] == models[j + 1]);
        }
        lemma_no_host(rest);
    }
}

/// What a request says of its host is what its headers say, the first
/// thirty-two of them; bytes that are no request say nothing.
pub proof fn law_sniffed(
    buf: &[u8],
    headers: &Vec<Header>,
    alone: Option<String>,
    out: Option<String>,
)
    requires
        call_ensures(sniff_http, (buf,), out),
        call_ensures(host_in_headers, (headers,), alone),
    ensures
        sniff_http::request_headers(buf@, 32) is None ==> out is None,
        sniff_http::request_headers(buf@, 32) == Some(sniff_http::header_models(headers@)) ==> (
        out is Some <==> alone is Some) && (out matches Some(h) ==> h@ == alone->0@),
{
}

} // verus!
