//! What holds of every health check and every download of geodata.
use crate::config::internal_http;
use crate::config::raw::RawProxyGroup;
use crate::runtime::geodata_fetch;
use crate::runtime::geodata_fetch::{
    compute_targets, fetch_missing, FetchMissing, GeoDataConfig, GeoDataDefaults, GeoTarget,
};
use crate::runtime::health_check;
use crate::runtime::health_check::{
    count_alive, extract_specs, resolve_members, should_probe, GroupState, HealthCheckSpec,
    HealthLoop, TickAction,
};
use crate::text;
use vstd::prelude::*;

verus! {

/// Whether a health check is what a group asks for: its name, its address and
/// its interval, or the usual ones, and whether it is lazy.
pub open spec fn checks(s: HealthCheckSpec, g: RawProxyGroup) -> bool {
    &&& s.group_name@ == g.name@
    &&& g.url matches Some(u) ==> s.url@ == u@
    &&& g.url is None ==> s.url@ == "http://www.gstatic.com/generate_204"@
    &&& g.interval matches Some(n) ==> n > 0 ==> s.interval_secs == n
    &&& g.interval is None || g.interval == Some(0u64) ==> s.interval_secs == 300
    &&& s.lazy <==> g.lazy == Some(true)
}

/// Whether a group is one that is probed.
pub open spec fn wants_probes(g: RawProxyGroup) -> bool {
    g.group_type@ == "fallback"@ || g.group_type@ == "url-test"@
}

/// Each group that picks by probing gets its health check, no other group gets
/// one, and they stand in the order of the groups.
pub proof fn law_probing_groups_are_checked(groups: &[RawProxyGroup], specs: Vec<HealthCheckSpec>)
    requires
        call_ensures(extract_specs, (groups,), specs),
    ensures
        exists|at: Seq<int>|
            {
                &&& #[trigger] at.len() == specs@.len()
                &&& forall|k: int|
                    0 <= k < at.len() ==> 0 <= #[trigger] at[k] < groups@.len() && wants_probes(
                        groups@[at[k]],
                    ) && checks(specs@[k], groups@[at[k]])
                &&& forall|a: int, b: int| 0 <= a < b < at.len() ==> at[a] < at[b]
                &&& forall|i: int|
                    0 <= i < groups@.len() && wants_probes(#[trigger] groups@[i]) ==> at.contains(i)
            },
{
    let at = health_check::probed(groups@, groups@.len());
    lemma_probed(groups@, groups@.len());
    assert forall|k: int| 0 <= k < at.len() implies 0 <= #[trigger] at[k] < groups@.len()
        && wants_probes(groups@[at[k]]) && checks(specs@[k], groups@[at[k]]) by {
        assert(at.contains(at[k]));
        assert(health_check::is_spec(specs@[k], groups@[at[k]]));
    }
    assert(at.len() == specs@.len());
}

proof fn lemma_probed(groups: Seq<RawProxyGroup>, n: nat)
    requires
        n <= groups.len(),
    ensures
        forall|i: int|
            #[trigger] health_check::probed(groups, n).contains(i) <==> 0 <= i < n && wants_probes(
                groups[i],
            ),
        forall|a: int, b: int|
            0 <= a < b < health_check::probed(groups, n).len() ==> health_check::probed(
                groups,
                n,
            )[a] < health_check::probed(groups, n)[b],
    decreases n,
{
    if n > 0 {
        let head = health_check::probed(groups, (n - 1) as nat);
        let all = health_check::probed(groups, n);
        lemma_probed(groups, (n - 1) as nat);
        if wants_probes(groups[n - 1]) {
            assert forall|i: int| #[trigger] all.contains(i) <==> 0 <= i < n && wants_probes(
                groups[i],
            ) by {
                if i == n - 1 {
                    assert(all[head.len() as int] == i);
                } else if head.contains(i) {
                    let k = choose|k: int| 0 <= k < head.len() && head[k] == i;
                    assert(all[k] == i);
                } else if all.contains(i) {
                    let k = choose|k: int| 0 <= k < all.len() && all[k] == i;
                    assert(k < head.len() ==> head[k] == i);
                }
            }
            assert forall|a: int, b: int| 0 <= a < b < all.len() implies all[a] < all[b] by {
                assert(head.contains(all[a])) by {
                    assert(head[a] == all[a]);
                }
                if b < head.len() {
                    assert(head[a] < head[b]);
                }
            }
        }
    }
}

/// A group that is not lazy is probed every time; a lazy one when it has been
/// used since it was last probed.
pub proof fn law_when_to_probe(lazy: bool, used: u64, last: u64, b: bool)
    requires
        call_ensures(should_probe, (lazy, used, last), b),
    ensures
        !lazy ==> b,
        lazy ==> (b <==> used != 0 && used != last),
{
}

/// Members that are known are found where they stand.
pub proof fn law_known_members(
    members: &Vec<String>,
    registry: &Vec<String>,
    at: Seq<usize>,
    out: Vec<usize>,
)
    requires
        call_ensures(resolve_members, (members, registry), out),
        at.len() == members@.len(),
        forall|i: int, j: int|
            0 <= i < j < registry@.len() ==> (#[trigger] registry@[i])@ != (
            #[trigger] registry@[j])@,
        forall|k: int|
            0 <= k < at.len() ==> (#[trigger] at[k]) < registry@.len() && members@[k]@
                == registry@[at[k] as int]@,
    ensures
        out@ == at,
{
    let m = text::texts(members@);
    let r = text::texts(registry@);
    let n = members@.len();
    let places = health_check::known_members(m, r, n);
    lemma_all_known(m, r, at, n);
    assert(crate::config::proxy_provider::places(out@) == places);
    assert(out@.len() == at.len());
    assert forall|k: int| 0 <= k < at.len() implies out@[k] == at[k] by {
        assert(crate::config::proxy_provider::places(out@)[k] == out@[k]);
    }
    assert(out@ =~= at);
}

proof fn lemma_all_known(m: Seq<Seq<char>>, r: Seq<Seq<char>>, at: Seq<usize>, n: nat)
    requires
        n <= m.len(),
        at.len() == m.len(),
        forall|i: int, j: int|
            0 <= i < j < r.len() ==> #[trigger] r[i] != #[trigger] r[j],
        forall|k: int| 0 <= k < at.len() ==> (#[trigger] at[k]) < r.len() && m[k] == r[at[k] as int],
    ensures
        health_check::known_members(m, r, n).len() == n,
        forall|k: int|
            0 <= k < n ==> #[trigger] health_check::known_members(m, r, n)[k] == at[k],
    decreases n,
{
    if n > 0 {
        lemma_all_known(m, r, at, (n - 1) as nat);
        assert(at[n - 1] < r.len() && m[n - 1] == r[at[n - 1] as int]);
        lemma_index(r, m[n - 1], at[n - 1] as int);
    }
}

proof fn lemma_index(r: Seq<Seq<char>>, name: Seq<char>, i: int)
    requires
        0 <= i < r.len(),
        r[i] == name,
        forall|j: int| 0 <= j < i ==> #[trigger] r[j] != name,
    ensures
        internal_http::index_of(r, name) == Some(i),
    decreases r.len(),
{
    if i > 0 {
        let rest = r.drop_first();
        assert(r[0] != name);
        assert forall|j: int| 0 <= j < i - 1 implies #[trigger] rest[j] != name by {
            assert(rest[j] == r[j + 1]);
        }
        lemma_index(rest, name, i - 1);
    }
}

proof fn lemma_no_index(r: Seq<Seq<char>>, name: Seq<char>)
    requires
        !r.contains(name),
    ensures
        internal_http::index_of(r, name) is None,
    decreases r.len(),
{
    if r.len() > 0 {
        let rest = r.drop_first();
        assert(r.contains(r[0]));
        assert(!rest.contains(name)) by {
            if rest.contains(name) {
                let j = choose|j: int| 0 <= j < rest.len() && rest[j] == name;
                assert(r[j + 1] == name);
            }
        }
        lemma_no_index(rest, name);
    }
}

/// A member that is not known is passed over.
pub proof fn law_unknown_member(
    members: &Vec<String>,
    more: &Vec<String>,
    registry: &Vec<String>,
    name: String,
    out: Vec<usize>,
    out_more: Vec<usize>,
)
    requires
        call_ensures(resolve_members, (members, registry), out),
        call_ensures(resolve_members, (more, registry), out_more),
        more@ == members@.push(name),
        forall|i: int| 0 <= i < registry@.len() ==> (#[trigger] registry@[i])@ != name@,
    ensures
        out_more@ == out@,
{
    let m = text::texts(members@);
    let q = text::texts(more@);
    let r = text::texts(registry@);
    assert(!r.contains(name@)) by {
        if r.contains(name@) {
            let j = choose|j: int| 0 <= j < r.len() && r[j] == name@;
            assert(r[j] == registry@[j]@);
        }
    }
    lemma_no_index(r, name@);
    assert(q[members@.len() as int] == name@);
    lemma_known_front(m, q, r, members@.len());
    let a = crate::config::proxy_provider::places(out@);
    let b = crate::config::proxy_provider::places(out_more@);
    assert(a == b);
    assert(out@.len() == out_more@.len());
    assert forall|k: int| 0 <= k < out@.len() implies out@[k] == out_more@[k] by {
        assert(a[k] == out@[k] && b[k] == out_more@[k]);
    }
    assert(out@ =~= out_more@);
}

proof fn lemma_known_front(m: Seq<Seq<char>>, q: Seq<Seq<char>>, r: Seq<Seq<char>>, n: nat)
    requires
        n <= m.len() <= q.len(),
        forall|i: int| 0 <= i < m.len() ==> #[trigger] m[i] == q[i],
    ensures
        health_check::known_members(m, r, n) == health_check::known_members(q, r, n),
    decreases n,
{
    if n > 0 {
        lemma_known_front(m, q, r, (n - 1) as nat);
        assert(m[n - 1] == q[n - 1]);
    }
}

/// A tick probes a group that is there and due, at its known members, and
/// remembers the use for which it did.
pub proof fn law_tick(
    h: &mut HealthLoop,
    g: GroupState,
    members: Vec<String>,
    registry: &Vec<String>,
    due: bool,
    at: Vec<usize>,
    action: TickAction,
)
    requires
        call_ensures(HealthLoop::on_tick, (h, Some(g), registry), action),
        g.members == Some(members),
        call_ensures(
            should_probe,
            (old(h).lazy, g.generation, old(h).last_probed_generation),
            due,
        ),
        call_ensures(resolve_members, (&members, registry), at),
    ensures
        due ==> (action matches TickAction::Probe(p) && p@ == at@) && final(h).last_probed_generation == g.generation,
        !due ==> action is Skip && *final(h) == *old(h),
        final(h).lazy == old(h).lazy,
{
    if due {
        let p = action->Probe_0;
        let a = crate::config::proxy_provider::places(p@);
        let b = crate::config::proxy_provider::places(at@);
        assert(a == b);
        assert(p@.len() == at@.len());
        assert forall|k: int| 0 <= k < p@.len() implies p@[k] == at@[k] by {
            assert(a[k] == p@[k] && b[k] == at@[k]);
        }
        assert(p@ =~= at@);
    }
}

/// A lazy group is not probed twice for the same use.
pub proof fn law_lazy_group_rests(
    first: &mut HealthLoop,
    second: &mut HealthLoop,
    g: GroupState,
    again: GroupState,
    registry: &Vec<String>,
    a: TickAction,
    b: TickAction,
)
    requires
        call_ensures(HealthLoop::on_tick, (first, Some(g), registry), a),
        *old(second) == *final(first),
        call_ensures(HealthLoop::on_tick, (second, Some(again), registry), b),
        old(first).lazy,
        again.generation == g.generation,
    ensures
        b is Skip,
{
}

/// One more proxy counts as one more, and as alive when its delay is not zero.
pub proof fn law_alive_counted(
    none: &Vec<u16>,
    delays: &Vec<u16>,
    more: &Vec<u16>,
    delay: u16,
    zero: (usize, usize),
    a: (usize, usize),
    b: (usize, usize),
)
    requires
        call_ensures(count_alive, (none,), zero),
        call_ensures(count_alive, (delays,), a),
        call_ensures(count_alive, (more,), b),
        none@.len() == 0,
        more@ == delays@.push(delay),
    ensures
        zero.0 == 0 && zero.1 == 0,
        b.0 == a.0 + (if delay > 0 {
            1int
        } else {
            0
        }),
        b.1 == a.1 + 1,
{
    assert(more@.drop_last() =~= delays@);
}

/// Each kind of geodata has its own label, address and file, the configured
/// file or the usual one.
pub proof fn law_targets(geo: &GeoDataConfig, usual: &GeoDataDefaults, out: [GeoTarget; 3])
    requires
        call_ensures(compute_targets, (geo, usual), out),
    ensures
        out@[0].label@ == "GeoIP MMDB"@ && out@[0].url@ == geo.mmdb_url@,
        out@[1].label@ == "ASN MMDB"@ && out@[1].url@ == geo.asn_url@,
        out@[2].label@ == "geosite"@ && out@[2].url@ == geo.geosite_url@,
        geo.mmdb_path matches Some(p) ==> out@[0].path@ == p@,
        geo.mmdb_path is None ==> out@[0].path@ == usual.geoip_path@,
        geo.asn_path matches Some(p) ==> out@[1].path@ == p@,
        geo.asn_path is None ==> out@[1].path@ == usual.asn_path@,
        geo.geosite_path matches Some(p) ==> out@[2].path@ == p@,
        geo.geosite_path is None ==> out@[2].path@ == usual.geosite_path@,
{
}

/// One more target adds its label when its file is missing and its download
/// succeeds, and nothing otherwise.
pub proof fn law_missing_is_fetched(
    targets: &[GeoTarget],
    present: &Vec<bool>,
    downloads: &Vec<bool>,
    more: &[GeoTarget],
    more_present: &Vec<bool>,
    more_downloads: &Vec<bool>,
    there: bool,
    ok: bool,
    a: Vec<&'static str>,
    b: Vec<&'static str>,
)
    requires
        present@.len() == targets@.len(),
        downloads@.len() == targets@.len(),
        call_ensures(fetch_missing, (targets, present, downloads), a),
        call_ensures(fetch_missing, (more, more_present, more_downloads), b),
        more@.len() == targets@.len() + 1,
        more@.drop_last() == targets@,
        more_present@ == present@.push(there),
        more_downloads@ == downloads@.push(ok),
    ensures
        targets@.len() == 0 ==> a@.len() == 0,
        !there && ok ==> b@.len() == a@.len() + 1 && b@.last()@ == more@.last().label@,
        there || !ok ==> b@.len() == a@.len(),
        forall|i: int| 0 <= i < a@.len() ==> (#[trigger] a@[i])@ == b@[i]@,
{
    let n = targets@.len();
    assert(more_present@.drop_last() =~= present@);
    assert(more_downloads@.drop_last() =~= downloads@);
    lemma_fetched_front(
        targets@,
        present@,
        downloads@,
        more@,
        more_present@,
        more_downloads@,
        n,
    );
    let la = geodata_fetch::labels(a@);
    let lb = geodata_fetch::labels(b@);
    assert(la.len() == a@.len() && lb.len() == b@.len());
    if !there && ok {
        assert(lb == la.push(more@.last().label@));
        assert(lb.last() == b@.last()@);
    } else {
        assert(lb == la);
    }
    assert forall|i: int| 0 <= i < a@.len() implies (#[trigger] a@[i])@ == b@[i]@ by {
        assert(la[i] == a@[i]@ && lb[i] == b@[i]@);
    }
}

proof fn lemma_fetched_front(
    t: Seq<GeoTarget>,
    p: Seq<bool>,
    d: Seq<bool>,
    u: Seq<GeoTarget>,
    q: Seq<bool>,
    e: Seq<bool>,
    n: nat,
)
    requires
        n <= t.len(),
        t.len() == p.len() && p.len() == d.len(),
        u.len() > t.len() && u.drop_last() == t,
        q.len() == u.len() && q.drop_last() == p,
        e.len() == u.len() && e.drop_last() == d,
    ensures
        geodata_fetch::fetched_labels(t, p, d, n) == geodata_fetch::fetched_labels(u, q, e, n),
    decreases n,
{
    if n > 0 {
        lemma_fetched_front(t, p, d, u, q, e, (n - 1) as nat);
        assert(u.drop_last()[n - 1] == u[n - 1]);
        assert(q.drop_last()[n - 1] == q[n - 1]);
        assert(e.drop_last()[n - 1] == e[n - 1]);
    }
}

/// Targets are looked at in their order: one that is there is passed by, one
/// that is missing is downloaded, and its label is kept if that succeeds.
pub proof fn law_targets_one_by_one(
    fresh: FetchMissing,
    look: &mut FetchMissing,
    load: &mut FetchMissing,
    after: FetchMissing,
    targets: &[GeoTarget],
    ok: bool,
    first: Option<usize>,
    missing: bool,
    done: (),
    next: Option<usize>,
    out: Vec<&'static str>,
)
    requires
        targets@.len() > 0,
        targets@.len() <= usize::MAX,
        call_ensures(FetchMissing::new, (), fresh),
        call_ensures(FetchMissing::next, (&fresh, targets), first),
        *old(look) == fresh,
        call_ensures(FetchMissing::on_looked, (look, targets, false), missing),
        *old(load) == *final(look),
        call_ensures(FetchMissing::on_downloaded, (load, targets, ok), done),
        after == *final(load),
        call_ensures(FetchMissing::next, (&after, targets), next),
        call_ensures(FetchMissing::finish, (after,), out),
    ensures
        first == Some(0usize),
        missing,
        targets@.len() > 1 ==> next == Some(1usize),
        targets@.len() == 1 ==> next is None,
        ok ==> out@.len() == 1 && out@[0]@ == targets@[0].label@,
        !ok ==> out@.len() == 0,
{
    let l = geodata_fetch::labels(out@);
    assert(l.len() == out@.len());
    if ok {
        assert(l.len() == 1);
        assert(l[0] == out@[0]@);
    }
}

/// A lazy group waits one interval before it is first looked at, another does
/// not; and neither has been probed for any use.
pub proof fn law_loop_begins(lazy: bool, h: HealthLoop, n: u32)
    requires
        call_ensures(HealthLoop::new, (lazy,), h),
        call_ensures(HealthLoop::ticks_before_first, (&h,), n),
    ensures
        h.lazy == lazy && h.last_probed_generation == 0,
        lazy ==> n == 1,
        !lazy ==> n == 0,
{
}

} // verus!
