//! From a host to the addresses that are dialed.
//!
//! An address literal is used as it is; else an installed resolver is asked;
//! else what the system's resolver said a short while ago is used again; else
//! the system's resolver is asked.
use crate::anytls::socket_protect::Candidates;
use crate::clock;
use crate::clock::Instant;
use crate::io_error::{ErrorKind, IoError};
use crate::net;
use crate::net::{IpAddr, SocketAddr};
use crate::text;
use vstd::prelude::*;

verus! {

/// How long a result of the system's resolver is used again: 60 seconds, in
/// nanoseconds.
pub const SYS_DNS_TTL: u128 = 60_000_000_000;

/// A registry with room for one hook.
#[derive(Debug)]
pub struct Registry<T> {
    pub slot: Option<T>,
}

/// Installs the host resolver; it takes the place of the one before.
pub fn set_host_resolver<T>(registry: &mut Registry<T>, resolver: T)
    ensures
        final(registry).slot == Some(resolver),
{
    registry.slot = Some(resolver);
}

/// Removes the host resolver.
pub fn clear_host_resolver<T>(registry: &mut Registry<T>)
    ensures
        final(registry).slot is None,
{
    registry.slot = None;
}

/// The installed host resolver.
pub fn host_resolver<T>(registry: &Registry<T>) -> (out: Option<&T>)
    ensures
        match out {
            Some(t) => registry.slot == Some(*t),
            None => registry.slot is None,
        },
{
    registry.slot.as_ref()
}

/// One result of the system's resolver.
#[derive(Debug)]
pub struct SysEntry {
    pub host: String,
    pub ips: Vec<IpAddr>,
    pub at: Instant,
}

/// The result for a host.
pub open spec fn result_for(entries: Seq<SysEntry>, host: Seq<char>) -> Option<(Seq<IpAddr>, Instant)>
    decreases entries.len(),
{
    if entries.len() == 0 {
        None
    } else if entries.last().host@ == host {
        Some((entries.last().ips@, entries.last().at))
    } else {
        result_for(entries.drop_last(), host)
    }
}

/// The hosts that some results are for.
pub open spec fn hosts_of(entries: Seq<SysEntry>) -> Seq<Seq<char>> {
    entries.map_values(|e: SysEntry| e.host@)
}

proof fn lemma_no_result(entries: Seq<SysEntry>, host: Seq<char>)
    ensures
        result_for(entries, host) is None == !hosts_of(entries).contains(host),
    decreases entries.len(),
{
    let hosts = hosts_of(entries);
    if entries.len() > 0 {
        let before = hosts_of(entries.drop_last());
        lemma_no_result(entries.drop_last(), host);
        assert(before =~= hosts.drop_last());
        assert(hosts[entries.len() - 1] == entries.last().host@);
        if before.contains(host) {
            let k = choose|k: int| 0 <= k < before.len() && before[k] == host;
            assert(hosts[k] == host);
        }
        if hosts.contains(host) && entries.last().host@ != host {
            let k = choose|k: int| 0 <= k < hosts.len() && hosts[k] == host;
            assert(before[k] == host);
        }
    }
}

proof fn lemma_result_at(entries: Seq<SysEntry>, k: int)
    requires
        hosts_of(entries).no_duplicates(),
        0 <= k < entries.len(),
    ensures
        result_for(entries, entries[k].host@) == Some((entries[k].ips@, entries[k].at)),
    decreases entries.len(),
{
    let last = entries.len() - 1;
    if k < last {
        let hosts = hosts_of(entries);
        let before = hosts_of(entries.drop_last());
        assert(before =~= hosts.drop_last());
        assert(hosts[k] != hosts[last]);
        lemma_result_at(entries.drop_last(), k);
    }
}

proof fn lemma_result_removed(entries: Seq<SysEntry>, k: int, host: Seq<char>)
    requires
        hosts_of(entries).no_duplicates(),
        0 <= k < entries.len(),
    ensures
        hosts_of(entries.remove(k)).no_duplicates(),
        result_for(entries.remove(k), host) == (if host == entries[k].host@ {
            None
        } else {
            result_for(entries, host)
        }),
{
    let hosts = hosts_of(entries);
    let rest = entries.remove(k);
    let left = hosts_of(rest);
    assert(left =~= hosts.remove(k));
    assert forall|i: int, j: int| 0 <= i < j < left.len() implies left[i] != left[j] by {
        let a = if i < k {
            i
        } else {
            i + 1
        };
        let b = if j < k {
            j
        } else {
            j + 1
        };
        assert(hosts[a] != hosts[b]);
    }
    lemma_no_result(entries, host);
    lemma_no_result(rest, host);
    if left.contains(host) {
        let i = choose|i: int| 0 <= i < left.len() && left[i] == host;
        let a = if i < k {
            i
        } else {
            i + 1
        };
        assert(hosts[a] == host && hosts[a] != hosts[k]);
        assert(rest[i] == entries[a]);
        lemma_result_at(rest, i);
        lemma_result_at(entries, a);
    } else if hosts.contains(host) && host != entries[k].host@ {
        let a = choose|a: int| 0 <= a < hosts.len() && hosts[a] == host;
        let i = if a < k {
            a
        } else {
            a - 1
        };
        assert(left[i] == host);
    }
}

/// Results of the system's resolver. It is kept only on platforms where a burst
/// of dials has to be held off the system.
#[derive(Debug)]
pub struct SysDnsCache {
    enabled: bool,
    entries: Vec<SysEntry>,
}

/// Addresses with a port.
pub open spec fn with_port(ips: Seq<IpAddr>, port: u16) -> Seq<SocketAddr> {
    ips.map_values(|ip: IpAddr| net::socket(ip, port))
}

/// The addresses of some addresses with ports.
pub open spec fn ips_of(addrs: Seq<SocketAddr>) -> Seq<IpAddr> {
    addrs.map_values(|a: SocketAddr| a.ip)
}

fn add_port(ips: &Vec<IpAddr>, port: u16) -> (out: Vec<SocketAddr>)
    ensures
        out@ == with_port(ips@, port),
{
    let mut out: Vec<SocketAddr> = Vec::new();
    let mut i: usize = 0;
    while i < ips.len()
        invariant
            i <= ips@.len(),
            out@.len() == i,
            forall|j: int|
                0 <= j < i ==> #[trigger] out@[j] == net::socket(ips@[j], port),
        decreases ips@.len() - i,
    {
        out.push(SocketAddr::new(ips[i], port));
        i += 1;
    }
    assert(out@ =~= with_port(ips@, port));
    out
}

fn drop_port(addrs: &Vec<SocketAddr>) -> (out: Vec<IpAddr>)
    ensures
        out@ == ips_of(addrs@),
{
    let mut out: Vec<IpAddr> = Vec::new();
    let mut i: usize = 0;
    while i < addrs.len()
        invariant
            i <= addrs@.len(),
            out@.len() == i,
            forall|j: int| 0 <= j < i ==> #[trigger] out@[j] == addrs@[j].ip,
        decreases addrs@.len() - i,
    {
        out.push(addrs[i].ip);
        i += 1;
    }
    assert(out@ =~= ips_of(addrs@));
    out
}

impl SysDnsCache {
    /// Whether results are kept at all.
    pub closed spec fn on(&self) -> bool {
        self.enabled
    }

    /// The result that is kept for a host: the addresses and when they were
    /// found.
    pub closed spec fn kept(&self, host: Seq<char>) -> Option<(Seq<IpAddr>, Instant)> {
        result_for(self.entries@, host)
    }

    /// The hosts that a result is kept for.
    pub closed spec fn hosts(&self) -> Seq<Seq<char>> {
        hosts_of(self.entries@)
    }

    /// No host occurs twice. Nothing is kept where nothing may be, and no
    /// result without addresses.
    pub open spec fn wf(&self) -> bool {
        &&& self.hosts().no_duplicates()
        &&& !self.on() ==> forall|host: Seq<char>| #[trigger] self.kept(host) is None
        &&& forall|host: Seq<char>|
            (#[trigger] self.kept(host)) is Some ==> (self.kept(host)->0).0.len() > 0
    }

    /// An empty cache.
    pub fn new(enabled: bool) -> (c: Self)
        ensures
            c.wf(),
            c.on() == enabled,
            c.hosts().len() == 0,
            forall|host: Seq<char>| #[trigger] c.kept(host) is None,
    {
        SysDnsCache { enabled, entries: Vec::new() }
    }

    /// The addresses that are kept for a host, unless they are too old.
    pub fn sys_cache_get(&self, host: &str, port: u16, now: Instant) -> (out: Option<
        Vec<SocketAddr>,
    >)
        requires
            self.wf(),
        ensures
            match self.kept(host@) {
                None => out is None,
                Some((ips, at)) => if clock::time_left(now, at) > SYS_DNS_TTL {
                    out is None
                } else {
                    out matches Some(a) && a@ == with_port(ips, port)
                },
            },
    {
        let mut n: usize = self.entries.len();
        assert(self.entries@.take(n as int) =~= self.entries@);
        while n > 0
            invariant
                n <= self.entries@.len(),
                result_for(self.entries@, host@) == result_for(self.entries@.take(n as int), host@),
            decreases n,
        {
            let e = &self.entries[n - 1];
            assert(self.entries@.take(n as int).drop_last() =~= self.entries@.take(n - 1));
            assert(self.entries@.take(n as int).last() == *e);
            if text::same(e.host.as_str(), host) {
                if now.saturating_duration_since(e.at).nanos > SYS_DNS_TTL {
                    return None;
                }
                return Some(add_port(&e.ips, port));
            }
            n -= 1;
        }
        None
    }

    /// Keeps a result of the system's resolver, in the place of one before.
    pub fn sys_cache_put(&mut self, host: &str, addrs: &Vec<SocketAddr>, now: Instant)
        requires
            old(self).wf(),
            addrs@.len() > 0,
        ensures
            final(self).wf(),
            final(self).on() == old(self).on(),
            final(self).hosts().len() == old(self).hosts().len() + (if old(self).on() && !old(
                self,
            ).hosts().contains(host@) {
                1int
            } else {
                0
            }),
            forall|h: Seq<char>|
                #[trigger] final(self).kept(h) == if h == host@ && old(self).on() {
                    Some((ips_of(addrs@), now))
                } else {
                    old(self).kept(h)
                },
    {
        if self.enabled {
            self.sys_cache_evict(host);
            let ghost evicted = *self;
            let ghost before = self.entries@;
            let ghost hosts = self.hosts();
            assert(self.kept(host@) is None);
            proof {
                lemma_no_result(before, host@);
            }
            let e = SysEntry { host: host.to_owned(), ips: drop_port(addrs), at: now };
            self.entries.push(e);
            assert(self.entries@.drop_last() =~= before);
            assert(self.hosts() =~= hosts.push(host@));
            assert forall|h: Seq<char>| #[trigger] self.kept(h) == if h == host@ {
                Some((ips_of(addrs@), now))
            } else {
                old(self).kept(h)
            } by {
                if h != host@ {
                    assert(self.kept(h) == evicted.kept(h));
                }
            }
        }
    }

    /// Forgets the result for a host.
    pub fn sys_cache_evict(&mut self, host: &str)
        requires
            old(self).wf(),
        ensures
            final(self).wf(),
            final(self).on() == old(self).on(),
            final(self).hosts().len() == old(self).hosts().len() - (if old(self).hosts().contains(
                host@,
            ) {
                1int
            } else {
                0
            }),
            forall|h: Seq<char>|
                #[trigger] final(self).kept(h) == if h == host@ {
                    None
                } else {
                    old(self).kept(h)
                },
    {
        let ghost before = self.entries@;
        let ghost hosts = self.hosts();
        let mut i: usize = 0;
        while i < self.entries.len()
            invariant
                i <= self.entries@.len(),
                *self == *old(self),
                before == self.entries@,
                hosts == hosts_of(before),
                hosts.no_duplicates(),
                old(self).wf(),
                forall|j: int| 0 <= j < i ==> #[trigger] hosts[j] != host@,
            decreases self.entries@.len() - i,
        {
            assert(hosts[i as int] == before[i as int].host@);
            if text::same(self.entries[i].host.as_str(), host) {
                let gone = self.entries.remove(i);
                proof {
                    assert(hosts.contains(host@));
                    assert forall|h: Seq<char>| #[trigger] self.kept(h) == if h == host@ {
                        None
                    } else {
                        old(self).kept(h)
                    } by {
                        lemma_result_removed(before, i as int, h);
                    }
                    lemma_result_removed(before, i as int, host@);
                    if !old(self).on() {
                        assert(old(self).kept(host@) is None);
                        lemma_no_result(before, host@);
                    }
                    assert forall|h: Seq<char>| (#[trigger] self.kept(h)) is Some implies (
                    self.kept(h)->0).0.len() > 0 by {
                        assert(self.kept(h) == old(self).kept(h));
                    }
                }
                return ;
            }
            i += 1;
        }
        proof {
            assert(!hosts.contains(host@));
            lemma_no_result(before, host@);
        }
    }
}

/// What a lookup has to do first.
#[derive(Debug)]
pub enum ResolveStep {
    /// These are the addresses.
    Ready(Vec<SocketAddr>),
    /// Ask the installed resolver.
    AskHook,
    /// Ask the system's resolver.
    AskSystem,
}

/// What a lookup has to do first, see the module's description.
pub fn resolve_step(
    cache: &SysDnsCache,
    host: &str,
    port: u16,
    hook_installed: bool,
    now: Instant,
) -> (step: ResolveStep)
    requires
        cache.wf(),
    ensures
        match net::ip_of_text(host@) {
            Some(ip) => step matches ResolveStep::Ready(a) && a@ == seq![net::socket(ip, port)],
            None => if hook_installed {
                step is AskHook
            } else {
                match cache.kept(host@) {
                    Some((ips, at)) => if clock::time_left(now, at) > SYS_DNS_TTL {
                        step is AskSystem
                    } else {
                        step matches ResolveStep::Ready(a) && a@ == with_port(ips, port)
                    },
                    None => step is AskSystem,
                }
            },
        },
        step matches ResolveStep::Ready(a) ==> a@.len() > 0,
{
    if let Some(ip) = net::parse_ip(host) {
        let mut out: Vec<SocketAddr> = Vec::new();
        out.push(SocketAddr::new(ip, port));
        assert(out@ =~= seq![net::socket(ip, port)]);
        return ResolveStep::Ready(out);
    }
    if hook_installed {
        return ResolveStep::AskHook;
    }
    match cache.sys_cache_get(host, port, now) {
        Some(a) => ResolveStep::Ready(a),
        None => ResolveStep::AskSystem,
    }
}

/// The addresses of a lookup that the installed resolver answered. Its error
/// ends the lookup: no other resolver is asked.
pub fn hook_addrs(found: Result<IpAddr, IoError>, port: u16) -> (r: Result<
    Vec<SocketAddr>,
    IoError,
>)
    ensures
        match found {
            Ok(ip) => r matches Ok(a) && a@ == seq![net::socket(ip, port)],
            Err(e) => r == Err::<Vec<SocketAddr>, IoError>(e),
        },
{
    match found {
        Ok(ip) => {
            let mut out: Vec<SocketAddr> = Vec::new();
            out.push(SocketAddr::new(ip, port));
            assert(out@ =~= seq![net::socket(ip, port)]);
            Ok(out)
        },
        Err(e) => Err(e),
    }
}

/// The addresses of a lookup that the system's resolver answered. They are
/// kept for a while; that there is none is an error.
pub fn system_addrs(
    cache: &mut SysDnsCache,
    host: &str,
    port: u16,
    found: Result<Vec<SocketAddr>, IoError>,
    now: Instant,
) -> (r: Result<Vec<SocketAddr>, IoError>)
    requires
        old(cache).wf(),
    ensures
        final(cache).wf(),
        match found {
            Err(e) => r == Err::<Vec<SocketAddr>, IoError>(e) && *final(cache) == *old(cache),
            Ok(addrs) => if addrs@.len() == 0 {
                &&& r matches Err(e) && e.is_error(
                    ErrorKind::InvalidInput,
                    "resolve: no address for "@ + host@ + ":"@ + text::decimal(port as nat),
                )
                &&& *final(cache) == *old(cache)
            } else {
                &&& r == Ok::<Vec<SocketAddr>, IoError>(addrs)
                &&& forall|h: Seq<char>|
                    #[trigger] final(cache).kept(h) == if h == host@ && old(cache).on() {
                        Some((ips_of(addrs@), now))
                    } else {
                        old(cache).kept(h)
                    }
            },
        },
{
    match found {
        Err(e) => Err(e),
        Ok(addrs) => {
            if addrs.len() == 0 {
                let mut what = text::join3("resolve: no address for ", host, ":");
                text::push_decimal(&mut what, port as u64);
                return Err(IoError { kind: ErrorKind::InvalidInput, message: what });
            }
            cache.sys_cache_put(host, &addrs, now);
            Ok(addrs)
        },
    }
}

/// The single address of a lookup: the first one.
pub fn resolve_host(found: Result<Vec<SocketAddr>, IoError>) -> (r: Result<SocketAddr, IoError>)
    requires
        found matches Ok(addrs) ==> addrs@.len() > 0,
    ensures
        match found {
            Ok(addrs) => r == Ok::<SocketAddr, IoError>(addrs@[0]),
            Err(e) => r == Err::<SocketAddr, IoError>(e),
        },
{
    match found {
        Ok(addrs) => Ok(addrs[0]),
        Err(e) => Err(e),
    }
}

/// A host that no candidate connected to: what was kept for it is forgotten, so
/// that the next dial looks it up anew. The error is that of the last candidate.
pub fn connect_failed(cache: &mut SysDnsCache, host: &str, candidates: Candidates) -> (e: IoError)
    requires
        old(cache).wf(),
        candidates.wf(),
        candidates.tried() == candidates.all().len(),
    ensures
        final(cache).wf(),
        forall|h: Seq<char>|
            #[trigger] final(cache).kept(h) == if h == host@ {
                None
            } else {
                old(cache).kept(h)
            },
        if candidates.all().len() == 0 {
            e.is_error(ErrorKind::InvalidInput, "connect_tcp_host: no addresses resolved"@)
        } else {
            Some(e) == candidates.last_failure()
        },
{
    cache.sys_cache_evict(host);
    candidates.into_error("connect_tcp_host: no addresses resolved")
}

} // verus!
