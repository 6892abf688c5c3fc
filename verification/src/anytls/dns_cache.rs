//! A small cache of host addresses, and the rules of a lookup around it.
use crate::anytls::error::{AnyTlsError, ErrorKind, IoError};
use crate::clock::Instant;
use crate::net;
use crate::net::{IpAddr, SocketAddr};
use crate::text;
use vstd::prelude::*;

verus! {

/// How long addresses are kept: 60 seconds, in nanoseconds.
pub const DEFAULT_TTL: u128 = 60_000_000_000;

/// Most seconds that a lookup may take.
pub const DNS_TIMEOUT_SECS: u64 = 10;

/// The addresses of one host. Each use hands out the next one in turn.
#[derive(Debug)]
pub struct CacheEntry {
    pub addresses: Vec<SocketAddr>,
    pub expires_at: Instant,
    pub next_index: usize,
}

/// The model of a [`CacheEntry`].
#[verifier::ext_equal]
pub struct EntryModel {
    pub addresses: Seq<SocketAddr>,
    pub expires_at: Instant,
    pub next_index: usize,
}

impl View for CacheEntry {
    type V = EntryModel;

    open spec fn view(&self) -> EntryModel {
        EntryModel {
            addresses: self.addresses@,
            expires_at: self.expires_at,
            next_index: self.next_index,
        }
    }
}

/// The hosts and their entries.
pub open spec fn stored(hosts: Seq<(String, CacheEntry)>) -> Seq<(Seq<char>, EntryModel)> {
    hosts.map_values(|p: (String, CacheEntry)| (p.0@, p.1@))
}

/// The entry of a host.
pub open spec fn entry_of(hosts: Seq<(Seq<char>, EntryModel)>, host: Seq<char>) -> Option<
    EntryModel,
>
    decreases hosts.len(),
{
    if hosts.len() == 0 {
        None
    } else if hosts.last().0 == host {
        Some(hosts.last().1)
    } else {
        entry_of(hosts.drop_last(), host)
    }
}

/// No host occurs twice.
pub open spec fn distinct_hosts(hosts: Seq<(Seq<char>, EntryModel)>) -> bool {
    forall|i: int, j: int| 0 <= i < j < hosts.len() ==> hosts[i].0 != hosts[j].0
}

proof fn lemma_entry_of(hosts: Seq<(Seq<char>, EntryModel)>, host: Seq<char>)
    ensures
        entry_of(hosts, host) is None ==> forall|i: int|
            0 <= i < hosts.len() ==> #[trigger] hosts[i].0 != host,
        distinct_hosts(hosts) ==> forall|i: int|
            0 <= i < hosts.len() && #[trigger] hosts[i].0 == host ==> entry_of(hosts, host) == Some(
                hosts[i].1,
            ),
        (forall|i: int| 0 <= i < hosts.len() ==> #[trigger] hosts[i].0 != host) ==> entry_of(
            hosts,
            host,
        ) is None,
    decreases hosts.len(),
{
    if hosts.len() > 0 {
        let head = hosts.drop_last();
        lemma_entry_of(head, host);
        assert(hosts[hosts.len() - 1] == hosts.last());
        assert forall|i: int| 0 <= i < head.len() implies #[trigger] head[i] == hosts[i] by {}
        if entry_of(hosts, host) is None {
            assert forall|i: int| 0 <= i < hosts.len() implies #[trigger] hosts[i].0 != host by {
                if i < head.len() {
                    assert(head[i].0 != host);
                }
            }
        }
        if distinct_hosts(hosts) {
            assert(distinct_hosts(head));
            assert forall|i: int| 0 <= i < hosts.len() && #[trigger] hosts[i].0
                == host implies entry_of(hosts, host) == Some(hosts[i].1) by {
                if i < head.len() {
                    assert(hosts[i].0 != hosts[hosts.len() - 1].0);
                    assert(head[i].0 == host);
                }
            }
        }
        if forall|i: int| 0 <= i < hosts.len() ==> #[trigger] hosts[i].0 != host {
            assert(hosts[hosts.len() - 1].0 != host);
            assert forall|i: int| 0 <= i < head.len() implies #[trigger] head[i].0 != host by {
                assert(hosts[i].0 != host);
            }
        }
    }
}

/// The entry of every host after one entry was replaced.
proof fn lemma_entry_update(
    hosts: Seq<(Seq<char>, EntryModel)>,
    at: int,
    e: EntryModel,
    host: Seq<char>,
)
    requires
        distinct_hosts(hosts),
        0 <= at < hosts.len(),
    ensures
        distinct_hosts(hosts.update(at, (hosts[at].0, e))),
        entry_of(hosts.update(at, (hosts[at].0, e)), host) == if host == hosts[at].0 {
            Some(e)
        } else {
            entry_of(hosts, host)
        },
{
    let new = hosts.update(at, (hosts[at].0, e));
    assert forall|i: int, j: int| 0 <= i < j < new.len() implies new[i].0 != new[j].0 by {
        assert(hosts[i].0 != hosts[j].0);
    }
    lemma_entry_of(hosts, host);
    lemma_entry_of(new, host);
    if host == hosts[at].0 {
        assert(new[at].0 == host);
    } else if entry_of(hosts, host) is Some {
        if entry_of(new, host) is None {
            assert forall|i: int| 0 <= i < hosts.len() implies #[trigger] hosts[i].0 != host by {
                assert(new[i].0 != host);
            }
        }
        let i = choose|i: int| 0 <= i < hosts.len() && #[trigger] hosts[i].0 == host;
        assert(new[i].0 == host);
        assert(new[i] == hosts[i]);
    } else {
        assert forall|i: int| 0 <= i < new.len() implies #[trigger] new[i].0 != host by {
            assert(hosts[i].0 != host);
        }
    }
}

/// The address that an entry hands out at `now`: the next one in turn, while
/// the entry has not expired and has addresses.
pub open spec fn handed_out(e: EntryModel, now: Instant) -> Option<SocketAddr> {
    if now.nanos <= e.expires_at.nanos && e.addresses.len() > 0 {
        Some(e.addresses[e.next_index as int % e.addresses.len() as int])
    } else {
        None
    }
}

/// An entry whose turn has moved on by one.
pub open spec fn moved_on(e: EntryModel) -> EntryModel {
    EntryModel {
        next_index: if e.next_index == usize::MAX {
            0
        } else {
            (e.next_index + 1) as usize
        },
        ..e
    }
}

/// A cache of host addresses.
#[derive(Debug)]
pub struct DnsCache {
    inner: Vec<(String, CacheEntry)>,
}

impl DnsCache {
    /// The hosts and their entries.
    pub closed spec fn hosts(&self) -> Seq<(Seq<char>, EntryModel)> {
        stored(self.inner@)
    }

    /// No host occurs twice.
    pub open spec fn wf(&self) -> bool {
        distinct_hosts(self.hosts())
    }

    /// The entry of a host.
    pub open spec fn entry(&self, host: Seq<char>) -> Option<EntryModel> {
        entry_of(self.hosts(), host)
    }

    /// An empty cache.
    pub fn new() -> (c: Self)
        ensures
            c.wf(),
            forall|host: Seq<char>| #[trigger] c.entry(host) is None,
    {
        let c = DnsCache { inner: Vec::new() };
        assert(c.hosts() =~= Seq::empty());
        c
    }

    fn find(&self, host: &str) -> (at: Option<usize>)
        requires
            self.wf(),
        ensures
            match at {
                Some(i) => i < self.inner@.len() && self.inner@[i as int].0@ == host@ && self.entry(
                    host@,
                ) == Some(self.inner@[i as int].1@),
                None => self.entry(host@) is None && forall|i: int|
                    0 <= i < self.inner@.len() ==> (#[trigger] self.inner@[i]).0@ != host@,
            },
    {
        proof {
            lemma_entry_of(self.hosts(), host@);
        }
        let mut i: usize = 0;
        while i < self.inner.len()
            invariant
                i <= self.inner@.len(),
                self.wf(),
                forall|j: int| 0 <= j < i ==> (#[trigger] self.inner@[j]).0@ != host@,
            decreases self.inner@.len() - i,
        {
            if text::same(self.inner[i].0.as_str(), host) {
                proof {
                    lemma_entry_of(self.hosts(), host@);
                    assert(self.hosts()[i as int].0 == host@);
                }
                return Some(i);
            }
            i += 1;
        }
        assert forall|j: int| 0 <= j < self.hosts().len() implies #[trigger] self.hosts()[j].0
            != host@ by {
            assert(self.inner@[j].0@ != host@);
        }
        None
    }

    /// The address that a host has at `now`: the next one in turn.
    pub fn get(&self, host: &str, now: Instant) -> (addr: Option<SocketAddr>)
        requires
            self.wf(),
        ensures
            addr == (match self.entry(host@) {
                Some(e) => handed_out(e, now),
                None => None,
            }),
    {
        match self.find(host) {
            Some(i) => {
                let e = &self.inner[i].1;
                if now.nanos <= e.expires_at.nanos && e.addresses.len() > 0 {
                    let n: usize = e.addresses.len();
                    let index: usize = e.next_index % n;
                    Some(e.addresses[index])
                } else {
                    None
                }
            },
            None => None,
        }
    }

    /// Keeps the addresses of a host from `now` on, in place of the ones it
    /// had; the first one is next.
    pub fn insert(&mut self, host: &str, addresses: Vec<SocketAddr>, now: Instant)
        requires
            old(self).wf(),
            now.nanos + DEFAULT_TTL <= u128::MAX,
        ensures
            final(self).wf(),
            forall|h: Seq<char>|
                #[trigger] final(self).entry(h) == if h == host@ {
                    Some(
                        EntryModel {
                            addresses: addresses@,
                            expires_at: Instant { nanos: (now.nanos + DEFAULT_TTL) as u128 },
                            next_index: 0,
                        },
                    )
                } else {
                    old(self).entry(h)
                },
    {
        let expires_at = Instant { nanos: now.nanos + DEFAULT_TTL };
        let entry = CacheEntry { addresses, expires_at, next_index: 0 };
        let ghost e = entry@;
        let ghost before = self.hosts();
        match self.find(host) {
            Some(i) => {
                self.inner[i] = (host.to_owned(), entry);
                proof {
                    assert(self.hosts() =~= before.update(i as int, (before[i as int].0, e)));
                    lemma_entry_update(before, i as int, e, host@);
                    assert forall|h: Seq<char>| #[trigger] self.entry(h) == if h == host@ {
                        Some(e)
                    } else {
                        old(self).entry(h)
                    } by {
                        lemma_entry_update(before, i as int, e, h);
                    }
                }
            },
            None => {
                self.inner.push((host.to_owned(), entry));
                proof {
                    assert(self.hosts() =~= before.push((host@, e)));
                    assert(self.hosts().drop_last() =~= before);
                    assert forall|a: int, b: int|
                        0 <= a < b < self.hosts().len() implies self.hosts()[a].0
                        != self.hosts()[b].0 by {
                        if b == before.len() {
                            assert(old(self).inner@[a].0@ != host@);
                        } else {
                            assert(before[a].0 != before[b].0);
                        }
                    }
                }
            },
        }
    }

    /// Moves the turn of a host on by one.
    pub fn advance(&mut self, host: &str)
        requires
            old(self).wf(),
        ensures
            final(self).wf(),
            forall|h: Seq<char>|
                #[trigger] final(self).entry(h) == if h == host@ && old(self).entry(h) is Some {
                    Some(moved_on(old(self).entry(h)->0))
                } else {
                    old(self).entry(h)
                },
    {
        let ghost before = self.hosts();
        match self.find(host) {
            Some(i) => {
                let ghost e = moved_on(before[i as int].1);
                let next: usize = self.inner[i].1.next_index;
                self.inner[i].1.next_index = if next == usize::MAX {
                    0
                } else {
                    next + 1
                };
                proof {
                    assert(self.hosts() =~= before.update(i as int, (before[i as int].0, e)));
                    lemma_entry_update(before, i as int, e, host@);
                    assert forall|h: Seq<char>| #[trigger] self.entry(h) == if h == host@ && old(
                        self,
                    ).entry(h) is Some {
                        Some(moved_on(old(self).entry(h)->0))
                    } else {
                        old(self).entry(h)
                    } by {
                        lemma_entry_update(before, i as int, e, h);
                    }
                }
            },
            None => {},
        }
    }

    /// Forgets everything.
    pub fn clear(&mut self)
        ensures
            final(self).wf(),
            forall|host: Seq<char>| #[trigger] final(self).entry(host) is None,
    {
        self.inner.clear();
        assert(self.hosts() =~= Seq::empty());
    }
}

// ---------------------------------------------------------------------------
// Lookups
// ---------------------------------------------------------------------------

/// What a lookup has to do first.
#[derive(Debug)]
pub enum LookupStep {
    /// This is the address.
    Ready(SocketAddr),
    /// Ask a resolver.
    Ask,
}

/// Begins a lookup: an address literal and a cached host need no resolver. A
/// cached host's turn moves on.
pub fn start_lookup(cache: &mut DnsCache, host: &str, port: u16, now: Instant) -> (step: LookupStep)
    requires
        old(cache).wf(),
    ensures
        final(cache).wf(),
        match net::ip_of_text(host@) {
            Some(ip) => step == LookupStep::Ready(net::socket(ip, port)) && *final(cache) == *old(
                cache,
            ),
            None => {
                let e = old(cache).entry(host@);
                if e is Some && handed_out(e->0, now) is Some {
                    &&& step == LookupStep::Ready(handed_out(e->0, now)->0)
                    &&& forall|h: Seq<char>|
                        #[trigger] final(cache).entry(h) == if h == host@ {
                            Some(moved_on(e->0))
                        } else {
                            old(cache).entry(h)
                        }
                } else {
                    step is Ask && *final(cache) == *old(cache)
                }
            },
        },
{
    match net::parse_ip(host) {
        Some(ip) => LookupStep::Ready(SocketAddr::new(ip, port)),
        None => match cache.get(host, now) {
            Some(addr) => {
                cache.advance(host);
                LookupStep::Ready(addr)
            },
            None => LookupStep::Ask,
        },
    }
}

/// How a resolver failed.
#[derive(Debug)]
pub enum LookupFailure {
    Timeout,
    /// With the resolver's own words.
    Failed(String),
}

/// Addresses in order: IPv4 before IPv6, then by octets.
pub open spec fn addresses_sorted(s: Seq<SocketAddr>) -> bool {
    forall|i: int, j: int| 0 <= i < j < s.len() ==> !net::ip_before(s[j].ip, s[i].ip)
}

/// Sorts addresses: IPv4 before IPv6, then by octets.
fn sort_addresses(addresses: Vec<SocketAddr>) -> (out: Vec<SocketAddr>)
    ensures
        out@.to_multiset() == addresses@.to_multiset(),
        out@.len() == addresses@.len(),
        addresses_sorted(out@),
{
    let mut out: Vec<SocketAddr> = Vec::new();
    let mut i: usize = 0;
    assert(addresses@.take(0) =~= out@);
    while i < addresses.len()
        invariant
            i <= addresses@.len(),
            out@.len() == i,
            out@.to_multiset() == addresses@.take(i as int).to_multiset(),
            addresses_sorted(out@),
        decreases addresses@.len() - i,
    {
        let a = addresses[i];
        let mut at: usize = out.len();
        while at > 0 && a.ip.before(&out[at - 1].ip)
            invariant
                at <= out@.len(),
                forall|j: int| at <= j < out@.len() ==> net::ip_before(a.ip, #[trigger] out@[j].ip),
            decreases at,
        {
            at -= 1;
        }
        let ghost before = out@;
        out.insert(at, a);
        proof {
            let after = out@;
            vstd::seq_lib::to_multiset_insert(before, at as int, a);
            vstd::seq_lib::to_multiset_build(addresses@.take(i as int), a);
            assert(addresses@.take(i + 1) =~= addresses@.take(i as int).push(a));
            assert forall|x: int, y: int| 0 <= x < y < after.len() implies !net::ip_before(
                after[y].ip,
                after[x].ip,
            ) by {
                if y == at as int {
                    assert(after[x] == before[x]);
                    if x + 1 < at {
                        assert(!net::ip_before(before[at - 1].ip, before[x].ip));
                    }
                } else if x == at as int {
                    assert(after[y] == before[y - 1]);
                } else {
                    let x0 = if x < at {
                        x
                    } else {
                        x - 1
                    };
                    let y0 = if y < at {
                        y
                    } else {
                        y - 1
                    };
                    assert(after[x] == before[x0] && after[y] == before[y0]);
                }
            }
        }
        i += 1;
    }
    assert(addresses@.take(i as int) =~= addresses@);
    out
}

/// Ends a lookup with what a resolver found. The addresses are kept in order
/// and the first one is handed out, so that the second one is next; a failed
/// or empty lookup keeps nothing.
pub fn finish_lookup(
    cache: &mut DnsCache,
    host: &str,
    found: Result<Vec<SocketAddr>, LookupFailure>,
    now: Instant,
) -> (r: Result<SocketAddr, AnyTlsError>)
    requires
        old(cache).wf(),
        now.nanos + DEFAULT_TTL <= u128::MAX,
    ensures
        final(cache).wf(),
        match found {
            Err(LookupFailure::Timeout) => *final(cache) == *old(cache) && (r matches Err(e)
                && e.is_protocol("DNS resolution timeout (10s) for "@ + host@)),
            Err(LookupFailure::Failed(why)) => *final(cache) == *old(cache) && (r matches Err(e)
                && e.is_io(
                ErrorKind::Other,
                "DNS resolution failed for "@ + host@ + ": "@ + why@,
            )),
            Ok(addrs) => if addrs@.len() == 0 {
                *final(cache) == *old(cache) && (r matches Err(e) && e.is_protocol(
                    "No address found for "@ + host@,
                ))
            } else {
                &&& final(cache).entry(host@) matches Some(e) && {
                    &&& e.addresses.to_multiset() == addrs@.to_multiset()
                    &&& addresses_sorted(e.addresses)
                    &&& e.addresses.len() == addrs@.len()
                    &&& e.expires_at.nanos == now.nanos + DEFAULT_TTL
                    &&& e.next_index == 1
                    &&& r matches Ok(a) && a == e.addresses[0]
                }
                &&& forall|h: Seq<char>|
                    h != host@ ==> #[trigger] final(cache).entry(h) == old(cache).entry(h)
            },
        },
{
    match found {
        Err(LookupFailure::Timeout) => Err(
            AnyTlsError::Protocol(text::join2("DNS resolution timeout (10s) for ", host)),
        ),
        Err(LookupFailure::Failed(why)) => {
            let mut what = text::join2("DNS resolution failed for ", host);
            text::push_text(&mut what, ": ");
            text::push_text(&mut what, why.as_str());
            Err(AnyTlsError::Io(IoError { kind: ErrorKind::Other, message: what }))
        },
        Ok(addrs) => {
            if addrs.len() == 0 {
                return Err(AnyTlsError::Protocol(text::join2("No address found for ", host)));
            }
            let sorted = sort_addresses(addrs);
            let first = sorted[0];
            cache.insert(host, sorted, now);
            cache.advance(host);
            Ok(first)
        },
    }
}

/// A host with several addresses hands them out in turn: the next use after
/// one address gives the one behind it, and the first again after the last.
pub proof fn law_round_robin(e: EntryModel, now: Instant)
    requires
        handed_out(e, now) is Some,
        e.next_index < usize::MAX,
    ensures
        handed_out(moved_on(e), now) == Some(
            e.addresses[(e.next_index as int % e.addresses.len() as int + 1)
                % e.addresses.len() as int],
        ),
{
    let n = e.addresses.len() as int;
    let i = e.next_index as int;
    vstd::arithmetic::div_mod::lemma_add_mod_noop(i, 1, n);
    if n > 1 {
        vstd::arithmetic::div_mod::lemma_small_mod(1, n as nat);
    } else {
        vstd::arithmetic::div_mod::lemma_mod_self_0(n);
    }
    assert((i % n + 1) % n == (i + 1) % n) by {
        vstd::arithmetic::div_mod::lemma_add_mod_noop_right(1, i, n);
    }
}

// ---------------------------------------------------------------------------
// Configured servers
// ---------------------------------------------------------------------------

/// The scope that stands behind a percent sign in the brackets of an IPv6
/// address with a port.
pub open spec fn scope_of(t: Seq<char>) -> u32 {
    match text::split_once_of(t, '%') {
        None => 0,
        Some((_, behind)) => match text::split_once_of(behind, ']') {
            None => 0,
            Some((digits, _)) => match text::number_of(digits, u32::MAX as nat) {
                Some(n) => n as u32,
                None => 0,
            },
        },
    }
}

fn read_scope(t: &str) -> (scope: u32)
    ensures
        scope == scope_of(t@),
{
    match text::split_once(t, '%') {
        None => 0,
        Some((_, behind)) => match text::split_once(behind.as_str(), ']') {
            None => 0,
            Some((digits, _)) => match text::parse_number(digits.as_str(), u32::MAX as u64) {
                Some(n) => n as u32,
                None => 0,
            },
        },
    }
}

/// An address for the usual port.
pub open spec fn usual_port(ip: IpAddr) -> SocketAddr {
    net::socket(ip, 53)
}

/// The address of a configured server: an address with a port, or an address
/// alone, in brackets or not, for the usual port.
pub open spec fn dns_server_of(entry: Seq<char>) -> Option<SocketAddr> {
    let t = text::trim_of(entry);
    match net::socket_of_text(t) {
        Some((ip, port)) => Some(SocketAddr { ip, port, scope_id: scope_of(t) }),
        None => match net::ip_of_text(t) {
            Some(ip) => Some(usual_port(ip)),
            None => if t.len() >= 2 && t[0] == '[' && t.last() == ']' {
                match net::ip_of_text(t.subrange(1, t.len() - 1)) {
                    Some(ip) => Some(usual_port(ip)),
                    None => None,
                }
            } else {
                None
            },
        },
    }
}

/// Reads the address of a configured server.
pub fn parse_dns_server(entry: &str) -> (r: Result<SocketAddr, IoError>)
    ensures
        if text::trim_of(entry@).len() == 0 {
            r matches Err(e) && e.is_error(
                ErrorKind::InvalidInput,
                "DNS server address is empty"@,
            )
        } else {
            match dns_server_of(entry@) {
                Some(addr) => r == Ok::<SocketAddr, IoError>(addr),
                None => r matches Err(e) && e.is_error(
                    ErrorKind::InvalidInput,
                    "invalid DNS server '"@ + entry@ + "'"@,
                ),
            }
        },
{
    let trimmed = text::trim(entry);
    if trimmed.as_str().is_empty() {
        return Err(IoError::new(ErrorKind::InvalidInput, "DNS server address is empty"));
    }
    if let Some((ip, port)) = net::parse_socket(trimmed.as_str()) {
        return Ok(SocketAddr { ip, port, scope_id: read_scope(trimmed.as_str()) });
    }
    if let Some(ip) = net::parse_ip(trimmed.as_str()) {
        return Ok(SocketAddr::new(ip, 53));
    }
    let chars = text::chars_of(trimmed.as_str());
    let n: usize = chars.len();
    if n >= 2 && chars[0] == '[' && chars[n - 1] == ']' {
        let inner = text::sub_text(&chars, 1, n - 1);
        if let Some(ip) = net::parse_ip(inner.as_str()) {
            return Ok(SocketAddr::new(ip, 53));
        }
    }
    let what = text::join3("invalid DNS server '", entry, "'");
    Err(IoError { kind: ErrorKind::InvalidInput, message: what })
}

/// Why an entry is no server address.
pub open spec fn server_fault(entry: Seq<char>) -> Seq<char> {
    if text::trim_of(entry).len() == 0 {
        "DNS server address is empty"@
    } else {
        "invalid DNS server '"@ + entry + "'"@
    }
}

/// Whether an entry is a server address.
pub open spec fn is_server(entry: Seq<char>) -> bool {
    text::trim_of(entry).len() > 0 && dns_server_of(entry) is Some
}

/// Reads the configured servers. The first entry that is no server address is
/// the error; without entries the system's resolver is used.
pub fn parse_dns_servers(servers: &Vec<String>) -> (r: Result<Vec<SocketAddr>, AnyTlsError>)
    ensures
        match r {
            Ok(addrs) => {
                &&& addrs@.len() == servers@.len()
                &&& forall|i: int|
                    0 <= i < servers@.len() ==> is_server((#[trigger] servers@[i])@)
                        && dns_server_of(servers@[i]@) == Some(addrs@[i])
            },
            Err(e) => exists|i: int|
                0 <= i < servers@.len() && !is_server((#[trigger] servers@[i])@) && (forall|j: int|
                    0 <= j < i ==> is_server((#[trigger] servers@[j])@)) && e.is_config(
                    "Invalid DNS server '"@ + servers@[i]@ + "': "@ + server_fault(servers@[i]@),
                ),
        },
{
    let mut out: Vec<SocketAddr> = Vec::new();
    let mut i: usize = 0;
    while i < servers.len()
        invariant
            i <= servers@.len(),
            out@.len() == i,
            forall|j: int|
                0 <= j < i ==> is_server((#[trigger] servers@[j])@) && dns_server_of(servers@[j]@)
                    == Some(out@[j]),
        decreases servers@.len() - i,
    {
        match parse_dns_server(servers[i].as_str()) {
            Ok(addr) => {
                out.push(addr);
            },
            Err(e) => {
                let mut what = text::join3("Invalid DNS server '", servers[i].as_str(), "': ");
                text::push_text(&mut what, e.message.as_str());
                assert(!is_server(servers@[i as int]@));
                return Err(AnyTlsError::Config(what));
            },
        }
        i += 1;
    }
    Ok(out)
}

/// How a server is asked.
#[derive(Clone, Copy, Debug, PartialEq, Eq, Structural)]
pub enum ServerProtocol {
    Udp,
    Tcp,
}

/// Which resolver lookups go through.
#[derive(Debug)]
pub enum ResolverChoice {
    System,
    /// These servers, in this order.
    Custom(Vec<(SocketAddr, ServerProtocol)>),
}

/// Whether a list asks each server twice: over UDP, then over TCP.
pub open spec fn asks_both_ways(
    list: Seq<(SocketAddr, ServerProtocol)>,
    servers: Seq<SocketAddr>,
) -> bool {
    &&& list.len() == 2 * servers.len()
    &&& forall|i: int|
        0 <= i < servers.len() ==> list[2 * i] == (#[trigger] servers[i], ServerProtocol::Udp)
            && list[2 * i + 1] == (servers[i], ServerProtocol::Tcp)
}

/// Chooses the resolver by the servers that were read: the system's where there
/// are none. What was cached is forgotten.
pub fn choose_resolver(cache: &mut DnsCache, servers: &Vec<SocketAddr>) -> (choice: ResolverChoice)
    ensures
        final(cache).wf(),
        forall|h: Seq<char>| #[trigger] final(cache).entry(h) is None,
        match choice {
            ResolverChoice::System => servers@.len() == 0,
            ResolverChoice::Custom(list) => servers@.len() > 0 && asks_both_ways(list@, servers@),
        },
{
    cache.clear();
    if servers.len() == 0 {
        return ResolverChoice::System;
    }
    let mut list: Vec<(SocketAddr, ServerProtocol)> = Vec::new();
    let mut i: usize = 0;
    while i < servers.len()
        invariant
            i <= servers@.len(),
            asks_both_ways(list@, servers@.take(i as int)),
        decreases servers@.len() - i,
    {
        let ghost before = list@;
        let ghost done = servers@.take(i as int);
        list.push((servers[i], ServerProtocol::Udp));
        list.push((servers[i], ServerProtocol::Tcp));
        proof {
            let more = servers@.take(i + 1);
            assert forall|k: int| 0 <= k < more.len() implies list@[2 * k] == (
                #[trigger] more[k],
                ServerProtocol::Udp,
            ) && list@[2 * k + 1] == (more[k], ServerProtocol::Tcp) by {
                if k < i {
                    assert(more[k] == done[k]);
                    assert(list@[2 * k] == before[2 * k]);
                    assert(list@[2 * k + 1] == before[2 * k + 1]);
                }
            }
        }
        i += 1;
    }
    assert(servers@.take(i as int) =~= servers@);
    ResolverChoice::Custom(list)
}

/// Sets the servers that lookups go through. Where one entry is no server
/// address, nothing changes.
pub fn set_custom_dns_servers(cache: &mut DnsCache, servers: &Vec<String>) -> (r: Result<
    ResolverChoice,
    AnyTlsError,
>)
    requires
        old(cache).wf(),
    ensures
        final(cache).wf(),
        match r {
            Ok(choice) => {
                &&& forall|i: int| 0 <= i < servers@.len() ==> is_server((#[trigger] servers@[i])@)
                &&& forall|h: Seq<char>| #[trigger] final(cache).entry(h) is None
                &&& match choice {
                    ResolverChoice::System => servers@.len() == 0,
                    ResolverChoice::Custom(list) => servers@.len() > 0 && asks_both_ways(
                        list@,
                        servers@.map_values(|s: String| dns_server_of(s@)->0),
                    ),
                }
            },
            Err(e) => {
                &&& *final(cache) == *old(cache)
                &&& exists|i: int|
                    0 <= i < servers@.len() && !is_server((#[trigger] servers@[i])@) && (forall|
                        j: int,
                    |
                        0 <= j < i ==> is_server((#[trigger] servers@[j])@)) && e.is_config(
                        "Invalid DNS server '"@ + servers@[i]@ + "': "@ + server_fault(
                            servers@[i]@,
                        ),
                    )
            },
        },
{
    match parse_dns_servers(servers) {
        Err(e) => Err(e),
        Ok(addrs) => {
            assert(addrs@ =~= servers@.map_values(|s: String| dns_server_of(s@)->0)) by {
                assert forall|i: int| 0 <= i < addrs@.len() implies addrs@[i] == servers@.map_values(
                    |s: String| dns_server_of(s@)->0,
                )[i] by {
                    assert(dns_server_of(servers@[i]@) == Some(addrs@[i]));
                }
            }
            Ok(choose_resolver(cache, &addrs))
        },
    }
}

} // verus!
