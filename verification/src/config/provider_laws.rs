//! What holds of the providers read from any configuration.
use crate::config::proxy_provider;
use crate::config::proxy_provider::{
    adapter_type_matches, bare_entries, build_health_check_config, compile_opt_regex,
    keyed_entries, load_proxy_providers, pattern_fault, pattern_found, split_exclude_types,
    validate_paths, ContentStep, DerivedView, GroupFilter, HealthCheckConfig, KeyedModel,
    ProxyEntry, ProxyInfo, ProxyProvider, Vehicle,
};
use crate::config::raw::{RawHealthCheck, RawProxyGroup, RawProxyProvider};
use crate::config::safe_path;
use crate::config::safe_path::resolve_contained;
use crate::text;
use crate::text_laws;
use crate::text_laws::{alike, visible};
use vstd::prelude::*;

verus! {

/// A health check that is not switched off takes over every field that the
/// configuration sets, whatever the others are, and has the usual value for
/// every field that it leaves out.
pub proof fn law_health_check_fields(raw: RawHealthCheck, out: Option<HealthCheckConfig>)
    requires
        call_ensures(build_health_check_config, (&Some(raw),), out),
        raw.enable != Some(false),
    ensures
        out is Some,
        raw.url matches Some(url) ==> out->0.url@ == url@,
        raw.interval matches Some(n) ==> out->0.interval == n,
        raw.timeout matches Some(n) ==> out->0.timeout == n,
        raw.expected_status matches Some(s) ==> out->0.expected_status@ == s@,
        raw.lazy matches Some(b) ==> out->0.lazy == b,
        raw.url is None ==> out->0.url@ == "https://www.gstatic.com/generate_204"@,
        raw.interval is None ==> out->0.interval == 300,
        raw.timeout is None ==> out->0.timeout == 5000,
        raw.expected_status is None ==> out->0.expected_status@.len() == 0,
        raw.lazy is None ==> !out->0.lazy,
{
}

/// A provider without a health check, or with one that is switched off, is not
/// checked.
pub proof fn law_health_check_off(raw: Option<RawHealthCheck>, out: Option<HealthCheckConfig>)
    requires
        call_ensures(build_health_check_config, (&raw,), out),
    ensures
        out is None <==> raw is None || raw->0.enable == Some(false),
{
}

/// Texts in a row, a bar between each two.
pub open spec fn barred(words: Seq<Seq<char>>) -> Seq<char>
    decreases words.len(),
{
    if words.len() == 0 {
        Seq::empty()
    } else if words.len() == 1 {
        words[0]
    } else {
        words[0] + seq!['|'] + barred(words.drop_first())
    }
}

/// Whether a word can stand between bars: it has no bar, and no white space at
/// its ends.
pub open spec fn is_word(w: Seq<char>) -> bool {
    w.len() > 0 && visible(w[0]) && visible(w.last()) && !w.contains('|')
        && text::lower_text(w).len() > 0
}

proof fn lemma_barred(words: Seq<Seq<char>>)
    requires
        words.len() > 0,
        forall|i: int| 0 <= i < words.len() ==> is_word(#[trigger] words[i]),
    ensures
        text::split_of(barred(words), '|') == words,
    decreases words.len(),
{
    let w = words[0];
    let all = barred(words);
    let rest = words.drop_first();
    assert(is_word(words[0]));
    assert forall|i: int| 0 <= i < w.len() implies #[trigger] all[i] != '|' by {
        assert(all[i] == w[i]);
        assert(w.contains(w[i]));
    }
    text::lemma_first_of_is(all, '|', w.len() as int);
    if words.len() == 1 {
        assert(words =~= seq![w]);
    } else {
        assert forall|i: int| 0 <= i < rest.len() implies is_word(#[trigger] rest[i]) by {
            assert(rest[i] == words[i + 1]);
        }
        lemma_barred(rest);
        assert(all.take(w.len() as int) =~= w);
        assert(all.skip(w.len() as int + 1) =~= barred(rest));
        assert(words =~= seq![w] + rest);
    }
}

proof fn lemma_words_in(words: Seq<Seq<char>>)
    requires
        forall|i: int| 0 <= i < words.len() ==> is_word(#[trigger] words[i]),
    ensures
        proxy_provider::words_in(words) == words.map_values(|w: Seq<char>| text::lower_text(w)),
    decreases words.len(),
{
    let f = |w: Seq<char>| text::lower_text(w);
    if words.len() > 0 {
        let before = words.drop_last();
        assert forall|i: int| 0 <= i < before.len() implies is_word(#[trigger] before[i]) by {
            assert(before[i] == words[i]);
        }
        lemma_words_in(before);
        assert(is_word(words[words.len() - 1]));
        text_laws::lemma_trim_visible(words.last());
        assert(words.map_values(f) =~= before.map_values(f).push(f(words.last())));
    } else {
        assert(words.map_values(f) =~= Seq::empty());
    }
}

/// The types to leave out are the words between the bars, in lower case and in
/// their order.
pub proof fn law_excluded_types(list: Vec<String>, words: Seq<Seq<char>>, out: Vec<String>)
    requires
        call_ensures(split_exclude_types, (&Some(list),), out),
        list@.len() == 1,
        words.len() > 0,
        forall|i: int| 0 <= i < words.len() ==> is_word(#[trigger] words[i]),
        list@[0]@ == barred(words),
    ensures
        out@.len() == words.len(),
        forall|i: int|
            0 <= i < words.len() ==> (#[trigger] out@[i])@ == text::lower_text(words[i]),
{
    lemma_barred(words);
    lemma_words_in(words);
    let t = text::texts(list@);
    assert(t.drop_last() =~= Seq::empty());
    assert(proxy_provider::exclude_words(t.drop_last()) =~= Seq::empty());
    assert(proxy_provider::exclude_words(t) =~= proxy_provider::words_in(words));
    assert(text::texts(out@).len() == words.len());
    assert forall|i: int| 0 <= i < words.len() implies (#[trigger] out@[i])@ == text::lower_text(
        words[i],
    ) by {
        assert(text::texts(out@)[i] == out@[i]@);
    }
}

/// Lists of types to leave out can be put one behind the other before or after
/// they are read, and no list gives nothing.
pub proof fn law_excluded_lists(
    first: Vec<String>,
    second: Vec<String>,
    both: Vec<String>,
    a: Vec<String>,
    b: Vec<String>,
    c: Vec<String>,
    none: Vec<String>,
)
    requires
        call_ensures(split_exclude_types, (&Some(first),), a),
        call_ensures(split_exclude_types, (&Some(second),), b),
        call_ensures(split_exclude_types, (&Some(both),), c),
        call_ensures(split_exclude_types, (&None::<Vec<String>>,), none),
        both@ == first@ + second@,
    ensures
        text::texts(c@) == text::texts(a@) + text::texts(b@),
        none@.len() == 0,
{
    lemma_excluded(text::texts(first@), text::texts(second@));
    assert(text::texts(both@) =~= text::texts(first@) + text::texts(second@));
    assert(text::texts(none@).len() == 0);
}

proof fn lemma_excluded(a: Seq<Seq<char>>, b: Seq<Seq<char>>)
    ensures
        proxy_provider::exclude_words(a + b) == proxy_provider::exclude_words(a)
            + proxy_provider::exclude_words(b),
    decreases b.len(),
{
    if b.len() == 0 {
        assert(a + b =~= a);
        assert(proxy_provider::exclude_words(a) + proxy_provider::exclude_words(b)
            =~= proxy_provider::exclude_words(a));
    } else {
        lemma_excluded(a, b.drop_last());
        assert((a + b).drop_last() =~= a + b.drop_last());
        assert((a + b).last() == b.last());
        let more = proxy_provider::words_in(text::split_of(b.last(), '|'));
        assert((proxy_provider::exclude_words(a) + proxy_provider::exclude_words(b.drop_last()))
            + more =~= proxy_provider::exclude_words(a) + (proxy_provider::exclude_words(
            b.drop_last(),
        ) + more));
    }
}

/// Whether a word names the type of an adapter: it is the type's name in any
/// case, or `ss` for Shadowsocks.
pub open spec fn names(word: Seq<char>, adapter: Seq<char>) -> bool {
    alike(word, adapter) || (adapter == "Shadowsocks"@ && alike(word, "ss"@))
}

proof fn lemma_names(word: Seq<char>, adapter: Seq<char>)
    ensures
        proxy_provider::names_type(word, adapter) == names(word, adapter),
{
    text_laws::lemma_alike(word, adapter);
    text_laws::lemma_alike(word, "ss"@);
}

/// A word names an adapter's type in any case, and `ss` names Shadowsocks.
pub proof fn law_type_names(word: &str, adapter: &str, b: bool)
    requires
        call_ensures(adapter_type_matches, (word, adapter), b),
    ensures
        b == names(word@, adapter@),
{
    lemma_names(word@, adapter@);
}

/// Whether a filter lets a proxy pass: its pattern is found in the name, the
/// one to leave out is not, and no type to leave out is the proxy's.
pub open spec fn lets_pass(f: GroupFilter, proxy: ProxyInfo) -> bool {
    &&& f.filter matches Some(p) ==> pattern_found(p@, proxy.name@)
    &&& f.exclude_filter matches Some(p) ==> !pattern_found(p@, proxy.name@)
    &&& forall|i: int|
        0 <= i < f.exclude_type@.len() ==> !names(
            (#[trigger] f.exclude_type@[i])@,
            proxy.adapter_type@,
        )
}

proof fn lemma_lets_pass(f: GroupFilter, proxy: ProxyInfo)
    ensures
        f.keeps(proxy) == lets_pass(f, proxy),
{
    assert forall|i: int| 0 <= i < f.exclude_type@.len() implies proxy_provider::names_type(
        (#[trigger] f.exclude_type@[i])@,
        proxy.adapter_type@,
    ) == names(f.exclude_type@[i]@, proxy.adapter_type@) by {
        lemma_names(f.exclude_type@[i]@, proxy.adapter_type@);
    }
}

/// A group keeps a proxy when its filter lets the proxy pass.
pub proof fn law_filter(f: &GroupFilter, proxy: &ProxyInfo, b: bool)
    requires
        call_ensures(GroupFilter::keep, (f, proxy), b),
    ensures
        b == lets_pass(*f, *proxy),
{
    lemma_lets_pass(*f, *proxy);
}

/// A view of a provider shows the proxies that its filter lets pass and no
/// others, each once and in their order, before and after every refresh.
pub proof fn law_views_show_what_passes(
    p: &mut ProxyProvider,
    proxies: Vec<ProxyInfo>,
    live: &Vec<u64>,
    now: u64,
    done: (),
    k: int,
)
    requires
        old(p).wf(),
        call_ensures(ProxyProvider::apply_refresh, (p, proxies, live, now), done),
        0 <= k < final(p).derived@.len(),
    ensures
        ({
            let view = final(p).derived@[k];
            let m = view.members@;
            &&& forall|i: int|
                0 <= i < proxies@.len() ==> (lets_pass(view.filter, #[trigger] proxies@[i])
                    <==> m.contains(i as usize))
            &&& forall|j: int| 0 <= j < m.len() ==> (#[trigger] m[j]) < proxies@.len()
            &&& forall|a: int, b: int| 0 <= a < b < m.len() ==> m[a] < m[b]
        }),
{
    let view = final(p).derived@[k];
    let m = view.members@;
    let slot = final(p).slot@;
    assert(proxies.len() == proxies@.len());
    let kept = proxy_provider::kept(view.filter, slot);
    assert(proxy_provider::places(m) == kept);
    proxy_provider::law_kept(view.filter, slot);
    assert forall|j: int| 0 <= j < m.len() implies (#[trigger] m[j]) < proxies@.len() by {
        assert(kept[j] == m[j]);
        assert(kept.contains(kept[j]));
    }
    assert forall|a: int, b: int| 0 <= a < b < m.len() implies m[a] < m[b] by {
        assert(kept[a] == m[a] && kept[b] == m[b]);
    }
    assert forall|i: int| 0 <= i < proxies@.len() implies (lets_pass(
        view.filter,
        #[trigger] proxies@[i],
    ) <==> m.contains(i as usize)) by {
        lemma_lets_pass(view.filter, proxies@[i]);
        assert(kept.contains(i) <==> view.filter.keeps(slot[i]));
        if kept.contains(i) {
            let j = choose|j: int| 0 <= j < kept.len() && kept[j] == i;
            assert(m[j] == i);
        }
        if m.contains(i as usize) {
            let j = choose|j: int| 0 <= j < m.len() && m[j] == i as usize;
            assert(kept[j] == i);
        }
    }
}

/// A refresh drops the views that nobody looks at and keeps all others.
pub proof fn law_live_views_stay(
    p: &mut ProxyProvider,
    proxies: Vec<ProxyInfo>,
    live: &Vec<u64>,
    now: u64,
    done: (),
)
    requires
        old(p).wf(),
        call_ensures(ProxyProvider::apply_refresh, (p, proxies, live, now), done),
    ensures
        forall|i: int|
            0 <= i < old(p).derived@.len() && live@.contains((#[trigger] old(p).derived@[i]).id)
                ==> exists|k: int|
                0 <= k < final(p).derived@.len() && (#[trigger] final(p).derived@[k]).id == old(p).derived@[i].id && final(p).derived@[k].filter == old(p).derived@[i].filter,
        forall|k: int|
            0 <= k < final(p).derived@.len() ==> live@.contains(
                (#[trigger] final(p).derived@[k]).id,
            ),
        final(p).slot@ == proxies@,
        final(p).updated_at == now,
{
    let d = old(p).derived@;
    let e = final(p).derived@;
    let kept = proxy_provider::live_views(d, live@);
    lemma_live(d, live@);
    let ids = proxy_provider::view_ids(e);
    assert(ids == kept);
    assert forall|i: int| 0 <= i < d.len() && live@.contains((#[trigger] d[i]).id) implies exists|
        k: int,
    |
        0 <= k < e.len() && (#[trigger] e[k]).id == d[i].id && e[k].filter == d[i].filter by {
        let k = choose|k: int| 0 <= k < kept.len() && kept[k] == (d[i].id, d[i].filter);
        assert(ids[k] == (e[k].id, e[k].filter));
    }
    assert forall|k: int| 0 <= k < e.len() implies live@.contains((#[trigger] e[k]).id) by {
        assert(ids[k] == (e[k].id, e[k].filter));
        assert(kept[k] == ids[k]);
    }
}

proof fn lemma_live(d: Seq<DerivedView>, live: Seq<u64>)
    ensures
        forall|i: int|
            0 <= i < d.len() && live.contains((#[trigger] d[i]).id)
                ==> proxy_provider::live_views(d, live).contains((d[i].id, d[i].filter)),
        forall|k: int|
            0 <= k < proxy_provider::live_views(d, live).len() ==> live.contains(
                (#[trigger] proxy_provider::live_views(d, live)[k]).0,
            ),
    decreases d.len(),
{
    if d.len() > 0 {
        let before = d.drop_last();
        lemma_live(before, live);
        let old_kept = proxy_provider::live_views(before, live);
        let kept = proxy_provider::live_views(d, live);
        assert forall|i: int| 0 <= i < d.len() && live.contains((#[trigger] d[i]).id) implies kept.contains(
            (d[i].id, d[i].filter),
        ) by {
            if i < before.len() {
                assert(before[i] == d[i]);
                let k = choose|k: int|
                    0 <= k < old_kept.len() && old_kept[k] == (d[i].id, d[i].filter);
                assert(kept[k] == old_kept[k]);
            } else {
                assert(kept[old_kept.len() as int] == (d[i].id, d[i].filter));
            }
        }
    }
}

/// Whether a provider takes an entry: a missing name or type is an empty one,
/// its patterns decide on the name, and none of its types to leave out is the
/// entry's type in lower case.
pub open spec fn takes_entry(
    p: ProxyProvider,
    name: Option<Seq<char>>,
    kind: Option<Seq<char>>,
) -> bool {
    let n = match name {
        Some(s) => s,
        None => Seq::empty(),
    };
    let k = match kind {
        Some(s) => s,
        None => Seq::empty(),
    };
    &&& p.filter matches Some(f) ==> pattern_found(f@, n)
    &&& p.exclude_filter matches Some(f) ==> !pattern_found(f@, n)
    &&& forall|i: int|
        0 <= i < p.exclude_type@.len() ==> (#[trigger] p.exclude_type@[i])@ != text::lower_text(k)
}

proof fn lemma_takes(p: ProxyProvider, e: proxy_provider::EntryModel)
    ensures
        p.takes(e) == takes_entry(p, e.0, e.1),
{
    let words = text::texts(p.exclude_type@);
    let kind = text::lower_text(proxy_provider::or_empty(e.1));
    if words.contains(kind) {
        let i = choose|i: int| 0 <= i < words.len() && words[i] == kind;
        assert(words[i] == p.exclude_type@[i]@);
    }
    assert forall|i: int| 0 <= i < p.exclude_type@.len() && !words.contains(kind) implies (
    #[trigger] p.exclude_type@[i])@ != kind by {
        assert(words[i] == p.exclude_type@[i]@);
        assert(words.contains(words[i]));
    }
}

proof fn lemma_taken(p: ProxyProvider, list: Seq<proxy_provider::EntryModel>, n: nat)
    requires
        n <= list.len(),
    ensures
        forall|i: int|
            #[trigger] proxy_provider::taken(p, list, n).contains(i) <==> 0 <= i < n && p.takes(
                list[i],
            ),
        forall|a: int, b: int|
            0 <= a < b < proxy_provider::taken(p, list, n).len() ==> proxy_provider::taken(
                p,
                list,
                n,
            )[a] < proxy_provider::taken(p, list, n)[b],
    decreases n,
{
    if n > 0 {
        let head = proxy_provider::taken(p, list, (n - 1) as nat);
        let all = proxy_provider::taken(p, list, n);
        lemma_taken(p, list, (n - 1) as nat);
        if p.takes(list[n - 1]) {
            assert forall|i: int| #[trigger] all.contains(i) <==> 0 <= i < n && p.takes(
                list[i],
            ) by {
                if i == n - 1 {
                    assert(all[head.len() as int] == i);
                } else if head.contains(i) {
                    let k = choose|k: int| 0 <= k < head.len() && head[k] == i;
                    assert(all[k] == i);
                } else if all.contains(i) {
                    let k = choose|k: int| 0 <= k < all.len() && all[k] == i;
                    assert(k < head.len() ==> head[k] == i);
                }
            }
            assert forall|a: int, b: int| 0 <= a < b < all.len() implies all[a] < all[b] by {
                assert(head.contains(all[a])) by {
                    assert(head[a] == all[a]);
                }
                if b < head.len() {
                    assert(head[a] < head[b]);
                }
            }
        }
    }
}

/// Of some entries a provider selects those that it takes and no others, each
/// once and in their order.
pub proof fn law_entries_selected(p: &ProxyProvider, entries: &Vec<ProxyEntry>, out: Vec<usize>)
    requires
        call_ensures(ProxyProvider::select, (p, entries), out),
    ensures
        forall|i: int|
            0 <= i < entries@.len() ==> (takes_entry(
                *p,
                text::opt_text((#[trigger] entries@[i]).name),
                text::opt_text(entries@[i].kind),
            ) <==> out@.contains(i as usize)),
        forall|a: int, b: int| 0 <= a < b < out@.len() ==> out@[a] < out@[b] && out@[b]
            < entries@.len(),
{
    let list = proxy_provider::entry_models(entries@);
    assert(entries.len() == entries@.len());
    lemma_selected(*p, list, out@);
    assert forall|i: int| 0 <= i < entries@.len() implies (takes_entry(
        *p,
        text::opt_text((#[trigger] entries@[i]).name),
        text::opt_text(entries@[i].kind),
    ) <==> out@.contains(i as usize)) by {
        assert(list[i] == entries@[i]@);
    }
}

proof fn lemma_selected(p: ProxyProvider, list: Seq<proxy_provider::EntryModel>, out: Seq<usize>)
    requires
        list.len() <= usize::MAX,
        proxy_provider::places(out) == proxy_provider::taken(p, list, list.len()),
    ensures
        forall|i: int|
            0 <= i < list.len() ==> (takes_entry(p, (#[trigger] list[i]).0, list[i].1)
                <==> out.contains(i as usize)),
        forall|a: int, b: int| 0 <= a < b < out.len() ==> out[a] < out[b] && out[b] < list.len(),
{
    let kept = proxy_provider::taken(p, list, list.len());
    lemma_taken(p, list, list.len());
    assert forall|a: int, b: int| 0 <= a < b < out.len() implies out[a] < out[b] && out[b]
        < list.len() by {
        assert(kept[a] == out[a] && kept[b] == out[b]);
        assert(kept.contains(kept[b]));
    }
    assert forall|i: int| 0 <= i < list.len() implies (takes_entry(
        p,
        (#[trigger] list[i]).0,
        list[i].1,
    ) <==> out.contains(i as usize)) by {
        lemma_takes(p, list[i]);
        if kept.contains(i) {
            let j = choose|j: int| 0 <= j < kept.len() && kept[j] == i;
            assert(out[j] == i);
        }
        if out.contains(i as usize) {
            let j = choose|j: int| 0 <= j < out.len() && out[j] == i as usize;
            assert(kept[j] == i);
            assert(kept.contains(i));
        }
    }
}

/// The entries of a provider's content are those below `proxies`; a document
/// without that key is itself the list, and one that is neither gives nothing.
pub proof fn law_content_selected(
    p: &ProxyProvider,
    content: &str,
    list: Seq<proxy_provider::EntryModel>,
    i: usize,
    out: Vec<usize>,
)
    requires
        call_ensures(ProxyProvider::parse_proxies, (p, content), out),
        i < list.len() <= usize::MAX,
    ensures
        keyed_entries(content@, "proxies"@, "name"@, "type"@) == KeyedModel::List(list) ==> (
        out@.contains(i) <==> takes_entry(*p, list[i as int].0, list[i as int].1)),
        keyed_entries(content@, "proxies"@, "name"@, "type"@) is NoKey && bare_entries(
            content@,
            "name"@,
            "type"@,
        ) == Some(list) ==> (out@.contains(i) <==> takes_entry(
            *p,
            list[i as int].0,
            list[i as int].1,
        )),
        keyed_entries(content@, "proxies"@, "name"@, "type"@) is NoDocument || keyed_entries(
            content@,
            "proxies"@,
            "name"@,
            "type"@,
        ) is NoList ==> out@.len() == 0,
{
    if proxy_provider::places(out@) == proxy_provider::taken(*p, list, list.len()) {
        lemma_selected(*p, list, out@);
        assert(takes_entry(*p, list[i as int].0, list[i as int].1) <==> out@.contains(i));
    }
}

/// A provider is made of what its configuration says: its patterns as they
/// are, the types to leave out and the health check as they are read, its
/// headers, and nothing in it yet.
pub proof fn law_provider_is_made(
    name: &str,
    raw: &RawProxyProvider,
    dir: Option<&str>,
    ipv6: bool,
    r: Result<ProxyProvider, String>,
    p: ProxyProvider,
    types: Vec<String>,
    health: Option<HealthCheckConfig>,
)
    requires
        call_ensures(ProxyProvider::new, (name, raw, dir, ipv6), r),
        r == Ok::<ProxyProvider, String>(p),
        call_ensures(split_exclude_types, (&raw.exclude_type,), types),
        call_ensures(build_health_check_config, (&raw.health_check,), health),
    ensures
        p.name@ == name@,
        text::opt_text(p.filter) == text::opt_text(raw.filter),
        text::opt_text(p.exclude_filter) == text::opt_text(raw.exclude_filter),
        text::texts(p.exclude_type@) == text::texts(types@),
        health is Some <==> p.health_check is Some,
        health matches Some(h) ==> {
            let g = p.health_check->0;
            g.url@ == h.url@ && g.interval == h.interval && g.timeout == h.timeout
                && g.expected_status@ == h.expected_status@ && g.lazy == h.lazy
        },
        raw.header matches Some(h) ==> p.header@ == h@,
        raw.header is None ==> p.header@ == Map::<Seq<char>, Seq<char>>::empty(),
        p.ipv6 == ipv6,
        p.slot@.len() == 0 && p.derived@.len() == 0 && p.updated_at == 0,
        p.vehicle is File ==> p.vehicle_type@ == "File"@,
        p.vehicle is Http ==> p.vehicle_type@ == "HTTP"@,
        raw.filter matches Some(f) ==> pattern_fault(f@) is None,
        raw.exclude_filter matches Some(f) ==> pattern_fault(f@) is None,
        p.vehicle is File <==> raw.provider_type@ == "file"@,
        p.vehicle is Http <==> raw.provider_type@ == "http"@,
{
    reveal_strlit("file");
    reveal_strlit("http");
    assert("file"@[0] != "http"@[0]);
}

/// A provider keeps its file below the cache directory: at the path that is
/// asked for or, over HTTP, at one made of its name. Where that path would lead
/// outside, there is no provider.
pub proof fn law_provider_file(
    name: &str,
    raw: &RawProxyProvider,
    dir: &str,
    ipv6: bool,
    asked: &str,
    path: Result<String, String>,
    r: Result<ProxyProvider, String>,
)
    requires
        call_ensures(ProxyProvider::new, (name, raw, Some(dir), ipv6), r),
        call_ensures(resolve_contained, (dir, asked), path),
        raw.provider_type@ == "file"@ || raw.provider_type@ == "http"@,
        match raw.path {
            Some(p) => asked@ == p@,
            None => raw.provider_type@ == "http"@ && asked@ == "provider_"@ + name@ + ".yaml"@,
        },
        raw.provider_type@ == "http"@ ==> raw.url is Some,
        raw.filter is None && raw.exclude_filter is None,
    ensures
        path is Err ==> r is Err,
        path matches Ok(at) ==> (r matches Ok(p) && match p.vehicle {
            Vehicle::File(q) => q@ == at@ && raw.provider_type@ == "file"@,
            Vehicle::Http { url, cache_path } => url@ == raw.url->0@ && (cache_path matches Some(q)
                && q@ == at@) && raw.provider_type@ == "http"@,
        }),
{
    reveal_strlit("file");
    reveal_strlit("http");
    assert("file"@[0] != "http"@[0]);
}

/// A provider of another type, one without its file or its address, and one
/// with a pattern that cannot be read are not made.
pub proof fn law_provider_is_refused(
    name: &str,
    raw: &RawProxyProvider,
    dir: Option<&str>,
    ipv6: bool,
    r: Result<ProxyProvider, String>,
)
    requires
        call_ensures(ProxyProvider::new, (name, raw, dir, ipv6), r),
        (raw.provider_type@ != "file"@ && raw.provider_type@ != "http"@) || (raw.provider_type@
            == "file"@ && (raw.path is None || dir is None)) || (raw.provider_type@ == "http"@
            && raw.url is None) || (raw.filter matches Some(f) && pattern_fault(f@) is Some) || (
        raw.exclude_filter matches Some(f) && pattern_fault(f@) is Some),
    ensures
        r is Err,
{
    reveal_strlit("file");
    reveal_strlit("http");
    assert("file"@[0] != "http"@[0]);
}

/// A pattern is taken as it is when it can be read, and refused otherwise.
pub proof fn law_pattern(pattern: String, field: &str, r: Result<Option<String>, String>)
    requires
        call_ensures(compile_opt_regex, (&Some(pattern), field), r),
    ensures
        pattern_fault(pattern@) is None ==> (r matches Ok(Some(p)) && p@ == pattern@),
        pattern_fault(pattern@) matches Some(why) ==> (r matches Err(e) && (e@ == field@
            + " regex error: "@ + why || e@ == field@ + " regex error: "@ + why
            + proxy_provider::LOOK_AROUND_HINT@)),
{
    if pattern_fault(pattern@) is Some {
        let why = pattern_fault(pattern@)->0;
        assert(field@ + " regex error: "@ + why + Seq::<char>::empty() =~= field@
            + " regex error: "@ + why);
    }
}

/// A group has a filter when it sets a pattern or a type to leave out, and the
/// filter is what the group sets.
pub proof fn law_group_filter(
    raw: &RawProxyGroup,
    types: Vec<String>,
    r: Result<Option<GroupFilter>, String>,
)
    requires
        call_ensures(GroupFilter::from_raw_group, (raw,), r),
        call_ensures(split_exclude_types, (&raw.exclude_type,), types),
    ensures
        r is Err <==> (raw.filter matches Some(f) && pattern_fault(f@) is Some) || (
        raw.exclude_filter matches Some(f) && pattern_fault(f@) is Some),
        r is Ok ==> (r->Ok_0 is None <==> raw.filter is None && raw.exclude_filter is None
            && types@.len() == 0),
        r matches Ok(Some(g)) ==> text::opt_text(g.filter) == text::opt_text(raw.filter)
            && text::opt_text(g.exclude_filter) == text::opt_text(raw.exclude_filter)
            && text::texts(g.exclude_type@) == text::texts(types@),
{
    assert(text::texts(types@).len() == types@.len());
}

/// Of some configured providers those are there that can be made by
/// themselves, under their names.
pub proof fn law_providers_loaded(
    raw: &Vec<(String, RawProxyProvider)>,
    dir: Option<&str>,
    ipv6: bool,
    out: Vec<ProxyProvider>,
    i: int,
    name: &str,
    alone: Result<ProxyProvider, String>,
)
    requires
        call_ensures(load_proxy_providers, (raw, dir, ipv6), out),
        0 <= i < raw@.len(),
        name@ == raw@[i].0@,
        call_ensures(ProxyProvider::new, (name, &raw@[i].1, dir, ipv6), alone),
    ensures
        alone is Ok ==> exists|k: int|
            0 <= k < out@.len() && (#[trigger] out@[k]).name@ == name@ && out@[k].vehicle@
                == alone->Ok_0.vehicle@,
        out@.len() <= raw@.len(),
        alone is Err && raw@.len() == 1 ==> out@.len() == 0,
{
    let d = match dir {
        Some(x) => Some(x@),
        None => None,
    };
    let at = proxy_provider::makeable(raw@, d, raw@.len());
    lemma_makeable(raw@, d, raw@.len());
    if alone is Ok {
        assert(at.contains(i));
        let k = choose|k: int| 0 <= k < at.len() && at[k] == i;
        assert(proxy_provider::is_asked_for(out@[k], raw@[at[k]].0@, raw@[at[k]].1, d, ipv6));
        assert(out@[k].name@ == name@);
    }
    if alone is Err && raw@.len() == 1 {
        if at.len() > 0 {
            assert(at.contains(at[0]));
        }
    }
}

proof fn lemma_makeable(raw: Seq<(String, RawProxyProvider)>, d: Option<Seq<char>>, n: nat)
    requires
        n <= raw.len(),
    ensures
        forall|i: int|
            #[trigger] proxy_provider::makeable(raw, d, n).contains(i) <==> 0 <= i < n
                && proxy_provider::provider_fault(raw[i].0@, raw[i].1, d) is None,
        proxy_provider::makeable(raw, d, n).len() <= n,
    decreases n,
{
    if n > 0 {
        let head = proxy_provider::makeable(raw, d, (n - 1) as nat);
        let all = proxy_provider::makeable(raw, d, n);
        lemma_makeable(raw, d, (n - 1) as nat);
        if proxy_provider::provider_fault(raw[n - 1].0@, raw[n - 1].1, d) is None {
            assert forall|i: int| #[trigger] all.contains(i) <==> 0 <= i < n
                && proxy_provider::provider_fault(raw[i].0@, raw[i].1, d) is None by {
                if i == n - 1 {
                    assert(all[head.len() as int] == i);
                } else if head.contains(i) {
                    let k = choose|k: int| 0 <= k < head.len() && head[k] == i;
                    assert(all[k] == i);
                } else if all.contains(i) {
                    let k = choose|k: int| 0 <= k < all.len() && all[k] == i;
                    assert(k < head.len() ==> head[k] == i);
                }
            }
        }
    }
}

/// The path that a configured provider asks for.
pub open spec fn asks_for(entry: (String, RawProxyProvider), path: Seq<char>) -> bool {
    match entry.1.path {
        Some(p) => (entry.1.provider_type@ == "file"@ || entry.1.provider_type@ == "http"@) && path
            == p@,
        None => entry.1.provider_type@ == "http"@ && path == "provider_"@ + entry.0@ + ".yaml"@,
    }
}

/// Paths are in order when each one that is asked for stays below the cache
/// directory, and when there is no cache directory.
pub proof fn law_paths_are_checked(
    raw: &Vec<(String, RawProxyProvider)>,
    dir: &str,
    r: Result<(), String>,
    free: Result<(), String>,
    i: int,
    asked: &str,
    path: Result<String, String>,
)
    requires
        call_ensures(validate_paths, (raw, Some(dir)), r),
        call_ensures(validate_paths, (raw, None::<&str>), free),
        0 <= i < raw@.len(),
        asks_for(raw@[i], asked@),
        call_ensures(resolve_contained, (dir, asked), path),
    ensures
        path is Err ==> r is Err,
        r is Err ==> exists|j: int, p: Seq<char>|
            0 <= j < raw@.len() && #[trigger] asks_for(raw@[j], p) && safe_path::contained(
                dir@,
                p,
            ) is None,
        free is Ok,
{
    reveal_strlit("file");
    reveal_strlit("http");
    assert("file"@[0] != "http"@[0]);
    assert(proxy_provider::asked_path(raw@[i].0@, raw@[i].1) == Some(asked@));
    if path is Err {
        assert(!proxy_provider::path_fits(raw@[i], dir@));
    }
    if r is Err {
        let j = choose|j: int|
            #![trigger raw@[j]]
            0 <= j < raw@.len() && !proxy_provider::path_fits(raw@[j], dir@);
        let p = proxy_provider::asked_path(raw@[j].0@, raw@[j].1)->0;
        assert(asks_for(raw@[j], p));
    }
}

/// Content that was fetched is used and kept; where fetching failed, the kept
/// copy is read, if there is one.
pub proof fn law_fetched_or_kept(
    p: &ProxyProvider,
    bytes: Vec<u8>,
    why: String,
    good: ContentStep,
    bad: ContentStep,
)
    requires
        p.vehicle is Http,
        vstd::utf8::valid_utf8(bytes@),
        call_ensures(ProxyProvider::on_fetched, (p, Ok::<Vec<u8>, String>(bytes)), good),
        call_ensures(ProxyProvider::on_fetched, (p, Err::<Vec<u8>, String>(why)), bad),
    ensures
        good matches ContentStep::Use { content, keep_at } && vstd::utf8::encode_utf8(content@)
            == bytes@ && text::opt_text(keep_at) == text::opt_text(p.vehicle->cache_path),
        p.vehicle->cache_path matches Some(at) ==> (bad matches ContentStep::ReadCache(q) && q@
            == at@),
        p.vehicle->cache_path is None ==> (bad matches ContentStep::Fail(e) && e@
            == "proxy-provider '"@ + p.name@ + "': "@
            + "fetch failed and no on-disk cache is configured"@),
{
    vstd::utf8::decode_utf8_encode_utf8(bytes@);
}

/// A new view gets a number of its own and shows what its filter lets pass of
/// the proxies that are there; the other views stay.
pub proof fn law_new_view(p: &mut ProxyProvider, filter: GroupFilter, id: u64, i: int)
    requires
        old(p).wf(),
        call_ensures(ProxyProvider::derived_slot, (p, filter), id),
        0 <= i < old(p).slot@.len() <= usize::MAX,
    ensures
        final(p).derived@.len() == old(p).derived@.len() + 1,
        final(p).derived@.drop_last() == old(p).derived@,
        final(p).derived@.last().id == id,
        forall|k: int| 0 <= k < old(p).derived@.len() ==> (#[trigger] old(p).derived@[k]).id != id,
        final(p).derived@.last().members@.contains(i as usize) <==> lets_pass(
            filter,
            old(p).slot@[i],
        ),
{
    let n = old(p).derived@.len() as int;
    let view = final(p).derived@[n];
    let m = view.members@;
    let slot = final(p).slot@;
    let kept = proxy_provider::kept(filter, slot);
    assert(view == final(p).derived@.last());
    assert(proxy_provider::places(m) == kept);
    proxy_provider::law_kept(filter, slot);
    lemma_lets_pass(filter, slot[i]);
    assert(kept.contains(i) <==> filter.keeps(slot[i]));
    if kept.contains(i) {
        let j = choose|j: int| 0 <= j < kept.len() && kept[j] == i;
        assert(m[j] == i);
    }
    if m.contains(i as usize) {
        let j = choose|j: int| 0 <= j < m.len() && m[j] == i as usize;
        assert(kept[j] == i);
        assert(kept.contains(i));
    }
}

} // verus!
