//! The health checks of proxy groups.
use crate::config::internal_http;
use crate::config::internal_http::find_name;
use crate::config::proxy_provider;
use crate::config::raw::RawProxyGroup;
use crate::text;
use vstd::prelude::*;

verus! {

/// Where a group is probed, where nothing is set.
pub const DEFAULT_URL: &'static str = "http://www.gstatic.com/generate_204";

/// How often a group is probed, in seconds, where nothing is set.
pub const DEFAULT_INTERVAL_SECS: u64 = 300;

/// How long a probe may take: 5 seconds, in nanoseconds.
pub const PROBE_TIMEOUT: u128 = 5_000_000_000;

/// The health check of one group.
#[derive(Debug)]
pub struct HealthCheckSpec {
    pub group_name: String,
    pub url: String,
    pub interval_secs: u64,
    pub lazy: bool,
}

/// Whether groups of this kind are probed.
pub open spec fn is_probed(kind: Seq<char>) -> bool {
    kind == "fallback"@ || kind == "url-test"@
}

/// Whether a health check is the one that a group asks for. An interval of zero
/// counts as not set.
pub open spec fn is_spec(s: HealthCheckSpec, g: RawProxyGroup) -> bool {
    &&& s.group_name@ == g.name@
    &&& s.url@ == (match g.url {
        Some(u) => u@,
        None => DEFAULT_URL@,
    })
    &&& s.interval_secs == (match g.interval {
        Some(n) if n > 0 => n,
        _ => DEFAULT_INTERVAL_SECS,
    })
    &&& s.lazy == (g.lazy == Some(true))
}

/// Where the groups that are probed stand among the first `n`.
pub open spec fn probed(groups: Seq<RawProxyGroup>, n: nat) -> Seq<int>
    decreases n,
{
    if n == 0 {
        Seq::empty()
    } else if n <= groups.len() && is_probed(groups[n - 1].group_type@) {
        probed(groups, (n - 1) as nat).push(n - 1)
    } else {
        probed(groups, (n - 1) as nat)
    }
}

/// Whether health checks are those that the groups at some places ask for.
pub open spec fn are_specs(
    specs: Seq<HealthCheckSpec>,
    groups: Seq<RawProxyGroup>,
    at: Seq<int>,
) -> bool {
    specs.len() == at.len() && forall|k: int|
        0 <= k < specs.len() ==> is_spec(#[trigger] specs[k], groups[at[k]])
}

fn spec_of(g: &RawProxyGroup) -> (s: HealthCheckSpec)
    ensures
        is_spec(s, *g),
{
    HealthCheckSpec {
        group_name: g.name.as_str().to_owned(),
        url: match &g.url {
            Some(u) => u.as_str().to_owned(),
            None => DEFAULT_URL.to_owned(),
        },
        interval_secs: match g.interval {
            Some(n) => if n > 0 {
                n
            } else {
                DEFAULT_INTERVAL_SECS
            },
            None => DEFAULT_INTERVAL_SECS,
        },
        lazy: match g.lazy {
            Some(b) => b,
            None => false,
        },
    }
}

/// The health checks that the groups ask for, in their order.
pub fn extract_specs(raw_groups: &[RawProxyGroup]) -> (specs: Vec<HealthCheckSpec>)
    ensures
        are_specs(specs@, raw_groups@, probed(raw_groups@, raw_groups@.len())),
{
    let mut specs: Vec<HealthCheckSpec> = Vec::new();
    let mut i: usize = 0;
    while i < raw_groups.len()
        invariant
            i <= raw_groups@.len(),
            are_specs(specs@, raw_groups@, probed(raw_groups@, i as nat)),
        decreases raw_groups@.len() - i,
    {
        let g = &raw_groups[i];
        let kind = g.group_type.as_str();
        let ghost before = specs@;
        let ghost at = probed(raw_groups@, i as nat);
        if text::same(kind, "fallback") || text::same(kind, "url-test") {
            specs.push(spec_of(g));
            proof {
                let more = at.push(i as int);
                assert forall|k: int| 0 <= k < specs@.len() implies is_spec(
                    #[trigger] specs@[k],
                    raw_groups@[more[k]],
                ) by {
                    if k < before.len() {
                        assert(specs@[k] == before[k]);
                        assert(more[k] == at[k]);
                    }
                }
            }
        }
        i += 1;
    }
    specs
}

/// Whether a group is due. A lazy one is due only if it was used since it was
/// last probed; generation zero means that it was never used.
pub open spec fn is_due(lazy: bool, generation: u64, last_probed_generation: u64) -> bool {
    !lazy || (generation != 0 && generation != last_probed_generation)
}

/// A lazy group that was probed is not due before it is used again, and one
/// that was never used is not due at all.
pub proof fn law_lazy_rests(generation: u64, last_probed_generation: u64)
    ensures
        !is_due(true, generation, generation),
        !is_due(true, 0, last_probed_generation),
        generation != 0 && generation != last_probed_generation ==> is_due(
            true,
            generation,
            last_probed_generation,
        ),
{
}

/// Whether a group is probed now.
pub fn should_probe(lazy: bool, generation: u64, last_probed_generation: u64) -> (b: bool)
    ensures
        b == is_due(lazy, generation, last_probed_generation),
{
    !lazy || (generation != 0 && generation != last_probed_generation)
}

/// A group, as a tick of its health check finds it.
#[derive(Debug)]
pub struct GroupState {
    /// How often it was used.
    pub generation: u64,
    /// Its members, where it is a group with members.
    pub members: Option<Vec<String>>,
}

/// What a tick of a health check does.
#[derive(Debug)]
pub enum TickAction {
    Skip,
    /// Probe the proxies at these places of the registry.
    Probe(Vec<usize>),
}

/// The loop of one health check.
#[derive(Debug)]
pub struct HealthLoop {
    pub lazy: bool,
    pub last_probed_generation: u64,
}

/// Where the members that the registry knows stand in it, among the first `n`
/// members.
pub open spec fn known_members(members: Seq<Seq<char>>, registry: Seq<Seq<char>>, n: nat) -> Seq<
    int,
>
    decreases n,
{
    if n == 0 {
        Seq::empty()
    } else {
        let before = known_members(members, registry, (n - 1) as nat);
        match internal_http::index_of(registry, members[n - 1]) {
            Some(i) => before.push(i),
            None => before,
        }
    }
}

/// The members that the registry knows.
pub fn resolve_members(members: &Vec<String>, registry: &Vec<String>) -> (out: Vec<usize>)
    ensures
        proxy_provider::places(out@) == known_members(
            text::texts(members@),
            text::texts(registry@),
            members@.len(),
        ),
{
    let ghost all = text::texts(members@);
    let ghost known = text::texts(registry@);
    let mut out: Vec<usize> = Vec::new();
    let mut i: usize = 0;
    assert(proxy_provider::places(out@) =~= Seq::<int>::empty());
    while i < members.len()
        invariant
            i <= members@.len(),
            all == text::texts(members@),
            known == text::texts(registry@),
            proxy_provider::places(out@) == known_members(all, known, i as nat),
        decreases members@.len() - i,
    {
        let ghost before = proxy_provider::places(out@);
        assert(all[i as int] == members@[i as int]@);
        if let Some(at) = find_name(registry, members[i].as_str()) {
            out.push(at);
            assert(proxy_provider::places(out@) =~= before.push(at as int));
        }
        i += 1;
    }
    out
}

impl HealthLoop {
    /// The loop of a health check that has probed nothing yet.
    pub fn new(lazy: bool) -> (h: Self)
        ensures
            h == (HealthLoop { lazy, last_probed_generation: 0 }),
    {
        HealthLoop { lazy, last_probed_generation: 0 }
    }

    /// How many ticks pass before the first one that counts. A lazy check does
    /// not probe at the start.
    pub fn ticks_before_first(&self) -> (n: u32)
        ensures
            n == (if self.lazy {
                1int
            } else {
                0int
            }),
    {
        if self.lazy {
            1
        } else {
            0
        }
    }

    /// One tick. A group that is gone, or that need not be probed, is skipped;
    /// so is one without members, but its use counts as seen.
    pub fn on_tick(&mut self, group: Option<GroupState>, registry: &Vec<String>) -> (action:
        TickAction)
        ensures
            final(self).lazy == old(self).lazy,
            match group {
                None => action is Skip && *final(self) == *old(self),
                Some(g) => if !is_due(
                    old(self).lazy,
                    g.generation,
                    old(self).last_probed_generation,
                ) {
                    action is Skip && *final(self) == *old(self)
                } else {
                    &&& final(self).last_probed_generation == g.generation
                    &&& match g.members {
                        None => action is Skip,
                        Some(m) => action matches TickAction::Probe(at)
                            && proxy_provider::places(at@) == known_members(
                            text::texts(m@),
                            text::texts(registry@),
                            m@.len(),
                        ),
                    }
                },
            },
    {
        match group {
            None => TickAction::Skip,
            Some(g) => {
                if !should_probe(self.lazy, g.generation, self.last_probed_generation) {
                    return TickAction::Skip;
                }
                self.last_probed_generation = g.generation;
                match g.members {
                    None => TickAction::Skip,
                    Some(m) => TickAction::Probe(resolve_members(&m, registry)),
                }
            },
        }
    }
}

/// How many probes found their proxy alive: those with a delay above zero.
pub open spec fn alive_in(delays: Seq<u16>) -> nat
    decreases delays.len(),
{
    if delays.len() == 0 {
        0
    } else {
        alive_in(delays.drop_last()) + (if delays.last() > 0 {
            1nat
        } else {
            0nat
        })
    }
}

/// How many proxies are alive, of how many.
pub fn count_alive(delays: &Vec<u16>) -> (out: (usize, usize))
    ensures
        out.0 == alive_in(delays@),
        out.1 == delays@.len(),
        out.0 <= out.1,
{
    let mut alive: usize = 0;
    let mut i: usize = 0;
    assert(delays@.take(0) =~= Seq::<u16>::empty());
    while i < delays.len()
        invariant
            i <= delays@.len(),
            alive <= i,
            alive == alive_in(delays@.take(i as int)),
        decreases delays@.len() - i,
    {
        assert(delays@.take(i + 1).drop_last() =~= delays@.take(i as int));
        if delays[i] > 0 {
            alive += 1;
        }
        i += 1;
    }
    assert(delays@.take(i as int) =~= delays@);
    (alive, delays.len())
}

} // verus!
