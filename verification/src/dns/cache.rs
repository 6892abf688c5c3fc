//! The answer cache: forward (name to addresses) and reverse (address to
//! name) tables, each split into shards that evict their least recently used
//! entries.
//!
//! Expiry is tracked per family, so a short-lived answer of one family never
//! cuts the life of the other family's answer short.
use crate::clock;
use crate::clock::{Duration, Instant};
use crate::dns::families;
use crate::dns::families::QueryFamilies;
use crate::dns::ip_list::IpList;
use crate::dns::lru_store;
use crate::dns::lru_store::{Answer, CacheEntry, ForwardStore, IpKey, NameHolder, ReverseEntry, ReverseStore};
use crate::net;
use crate::net::IpAddr;
use crate::text;
use vstd::prelude::*;

verus! {

/// Number of shards of each table.
pub const SHARDS: usize = 16;

/// Reverse entries allowed for each forward entry allowed.
pub const REVERSE_CAP_MULTIPLIER: usize = 4;

/// Shortest life of a reverse entry: 600 seconds, in nanoseconds.
pub const REVERSE_TTL_FLOOR: u128 = 600_000_000_000;

// ---------------------------------------------------------------------------
// Shard selection
// ---------------------------------------------------------------------------

/// One step of the FNV-1a hash.
pub open spec fn fnv_step(h: u32, b: u8) -> u32 {
    (((h ^ (b as u32)) * 0x0100_0193) % 0x1_0000_0000) as u32
}

/// The 32-bit FNV-1a hash of some bytes.
pub open spec fn fnv1a32_of(bytes: Seq<u8>) -> u32
    decreases bytes.len(),
{
    if bytes.len() == 0 {
        0x811c_9dc5
    } else {
        fnv_step(fnv1a32_of(bytes.drop_last()), bytes.last())
    }
}

/// The 32-bit FNV-1a hash of `bytes`.
pub fn fnv1a32(bytes: &[u8]) -> (h: u32)
    ensures
        h == fnv1a32_of(bytes@),
{
    let mut h: u32 = 0x811c_9dc5;
    let mut i: usize = 0;
    while i < bytes.len()
        invariant
            i <= bytes@.len(),
            h == fnv1a32_of(bytes@.take(i as int)),
        decreases bytes@.len() - i,
    {
        h = h ^ (bytes[i] as u32);
        h = h.wrapping_mul(0x0100_0193);
        assert(bytes@.take(i + 1).drop_last() =~= bytes@.take(i as int));
        i += 1;
    }
    assert(bytes@.take(i as int) =~= bytes@);
    h
}

/// The shard that some key bytes belong to.
pub open spec fn shard_of_bytes(bytes: Seq<u8>) -> int {
    fnv1a32_of(bytes) as int % 16
}

/// The shard of a (lower-case) domain.
pub open spec fn shard_of(domain: Seq<char>) -> int {
    shard_of_bytes(vstd::utf8::encode_utf8(domain))
}

/// The shard of an address.
pub open spec fn shard_of_ip(ip: IpAddr) -> int {
    shard_of_bytes(net::ip_octets(ip))
}

/// The shard of the domain `s`.
pub fn shard_str(s: &str) -> (i: usize)
    ensures
        i == shard_of(s@),
        i < SHARDS,
{
    fnv1a32(s.as_bytes()) as usize % SHARDS
}

/// The shard of the address `ip`.
pub fn shard_ip(ip: IpAddr) -> (i: usize)
    ensures
        i == shard_of_ip(ip),
        i < SHARDS,
{
    let octets = ip.octets();
    fnv1a32(octets.as_slice()) as usize % SHARDS
}

/// The share of `total` that one shard gets, but never less than `min`.
pub fn per_shard_cap(total: usize, min: usize) -> (cap: usize)
    ensures
        cap == if total / SHARDS >= min { total / SHARDS } else { min },
{
    let share: usize = total / SHARDS;
    if share >= min {
        share
    } else {
        min
    }
}

/// How many answers a forward shard of a cache for about `capacity` answers may
/// hold.
pub open spec fn forward_share(capacity: int) -> int {
    if capacity / 16 >= 8 {
        capacity / 16
    } else {
        8
    }
}

/// How many mappings a reverse shard of a cache for about `capacity` answers
/// may hold.
pub open spec fn reverse_share(capacity: int) -> int {
    let wanted = if capacity * 4 <= usize::MAX {
        capacity * 4
    } else {
        usize::MAX as int
    };
    if wanted / 16 >= 16 {
        wanted / 16
    } else {
        16
    }
}

/// Domains are looked up without regard to ASCII case.
pub fn normalize_domain(domain: &str) -> (out: String)
    ensures
        out@ == text::ascii_lower(domain@),
{
    text::to_ascii_lowercase(domain)
}

// ---------------------------------------------------------------------------
// The model of the cache
// ---------------------------------------------------------------------------

/// The key under which the reverse table keeps an address.
pub open spec fn key_of_ip(ip: IpAddr) -> IpKey {
    match ip {
        IpAddr::V4(x) => (4u8, x as u128),
        IpAddr::V6(x) => (6u8, x),
    }
}

/// The address kept under a key of the reverse table.
pub open spec fn ip_of_key(key: IpKey) -> IpAddr {
    if key.0 == 4 {
        IpAddr::V4(key.1 as u32)
    } else {
        IpAddr::V6(key.1)
    }
}

fn ip_key(ip: IpAddr) -> (key: IpKey)
    ensures
        key == key_of_ip(ip),
        ip_of_key(key) == ip,
{
    match ip {
        IpAddr::V4(x) => (4, x as u128),
        IpAddr::V6(x) => (6, x),
    }
}

/// The pairs of a shard after `v` was kept under `k` and, where the shard then
/// held more than `cap` pairs, the least recently used one was evicted.
pub open spec fn keep<K, V>(s: Seq<(K, V)>, cap: nat, k: K, v: V) -> Seq<(K, V)> {
    let t = seq![(k, v)] + lru_store::lru_without(s, k);
    if t.len() > cap {
        t.drop_last()
    } else {
        t
    }
}

/// The contents of the cache. Each shard lists its pairs, most recently used
/// first.
#[verifier::ext_equal]
pub struct CacheModel {
    pub forward: Seq<Seq<(Seq<char>, Answer)>>,
    pub reverse: Seq<Seq<(IpKey, NameHolder)>>,
    pub fwd_cap: nat,
    pub rev_cap: nat,
}

/// What holds of every forward shard.
pub open spec fn forward_shard_valid(
    shard: Seq<(Seq<char>, Answer)>,
    index: int,
    cap: nat,
) -> bool {
    &&& shard.len() <= cap
    &&& lru_store::lru_distinct(shard)
    &&& forall|j: int|
        0 <= j < shard.len() ==> shard_of(#[trigger] shard[j].0) == index
            && text::ascii_lower(shard[j].0) == shard[j].0
}

/// What holds of every reverse shard.
pub open spec fn reverse_shard_valid(
    shard: Seq<(IpKey, NameHolder)>,
    index: int,
    cap: nat,
) -> bool {
    &&& shard.len() <= cap
    &&& lru_store::lru_distinct(shard)
    &&& forall|j: int|
        0 <= j < shard.len() ==> shard_of_ip(ip_of_key(#[trigger] shard[j].0)) == index
            && key_of_ip(ip_of_key(shard[j].0)) == shard[j].0
}

impl CacheModel {
    /// Shards keep to their limits, hold no key twice, and hold only keys that
    /// belong to them; domains are in lower case.
    pub open spec fn valid(self) -> bool {
        &&& self.forward.len() == SHARDS
        &&& self.reverse.len() == SHARDS
        &&& 8 <= self.fwd_cap
        &&& SHARDS * self.fwd_cap <= usize::MAX
        &&& 16 <= self.rev_cap
        &&& SHARDS * self.rev_cap <= usize::MAX
        &&& forall|i: int|
            0 <= i < SHARDS ==> forward_shard_valid(#[trigger] self.forward[i], i, self.fwd_cap)
        &&& forall|i: int|
            0 <= i < SHARDS ==> reverse_shard_valid(#[trigger] self.reverse[i], i, self.rev_cap)
    }

    /// The answer kept for a lower-case domain.
    pub open spec fn answer(self, domain: Seq<char>) -> Option<Answer> {
        lru_store::lru_lookup(self.forward[shard_of(domain)], domain)
    }

    /// The name kept for an address.
    pub open spec fn name(self, ip: IpAddr) -> Option<NameHolder> {
        lru_store::lru_lookup(self.reverse[shard_of_ip(ip)], key_of_ip(ip))
    }

    /// The cache after an answer was kept.
    pub open spec fn keep_answer(self, domain: Seq<char>, a: Answer) -> CacheModel {
        let i = shard_of(domain);
        CacheModel {
            forward: self.forward.update(i, keep(self.forward[i], self.fwd_cap, domain, a)),
            ..self
        }
    }

    /// The cache after a name was kept for an address.
    pub open spec fn keep_name(self, ip: IpAddr, holder: NameHolder) -> CacheModel {
        let i = shard_of_ip(ip);
        CacheModel {
            reverse: self.reverse.update(
                i,
                keep(self.reverse[i], self.rev_cap, key_of_ip(ip), holder),
            ),
            ..self
        }
    }

    /// The cache after a name was kept for each address, in order.
    pub open spec fn keep_names(self, ips: Seq<IpAddr>, holder: NameHolder) -> CacheModel
        decreases ips.len(),
    {
        if ips.len() == 0 {
            self
        } else {
            self.keep_names(ips.drop_last(), holder).keep_name(ips.last(), holder)
        }
    }
}

/// Keeping a pair in a shard: the pair is found, keys stay distinct, the limit
/// holds, and another key keeps its value or, in a full shard, loses it.
pub proof fn lemma_keep<K, V>(s: Seq<(K, V)>, cap: nat, k: K, v: V)
    requires
        lru_store::lru_distinct(s),
        s.len() <= cap,
        cap > 0,
    ensures
        lru_store::lru_lookup(keep(s, cap, k, v), k) == Some(v),
        lru_store::lru_distinct(keep(s, cap, k, v)),
        keep(s, cap, k, v).len() <= cap,
        forall|j: int|
            0 <= j < keep(s, cap, k, v).len() ==> (#[trigger] keep(s, cap, k, v)[j] == (k, v)
                || s.contains(keep(s, cap, k, v)[j])),
        forall|q: K|
            q != k ==> {
                ||| #[trigger] lru_store::lru_lookup(keep(s, cap, k, v), q)
                    == lru_store::lru_lookup(s, q)
                ||| lru_store::lru_lookup(keep(s, cap, k, v), q) is None && s.len()
                    == cap && s.last().0 == q
            },
{
    lru_store::lemma_without(s, k);
    lru_store::lemma_put(s, cap + 1, k, v);
    let t = seq![(k, v)] + lru_store::lru_without(s, k);
    assert(t == lru_store::lru_put(s, cap + 1, k, v));
    assert forall|j: int| 0 <= j < t.len() implies (#[trigger] t[j] == (k, v) || s.contains(
        t[j],
    )) by {
        if j > 0 {
            assert(t[j] == lru_store::lru_without(s, k)[j - 1]);
        }
    }
    if t.len() > cap {
        assert(lru_store::lru_lookup(s, k) is None);
        assert(lru_store::lru_without(s, k) == s);
        assert(t.last() == s.last());
        assert(t[0] == (k, v));
        assert(t[0].0 != t[t.len() - 1].0);
        lru_store::lemma_drop_oldest(t, k);
        assert forall|q: K| q != k implies {
            ||| #[trigger] lru_store::lru_lookup(keep(s, cap, k, v), q)
                == lru_store::lru_lookup(s, q)
            ||| lru_store::lru_lookup(keep(s, cap, k, v), q) is None && s.len() == cap
                && s.last().0 == q
        } by {
            lru_store::lemma_drop_oldest(t, q);
            assert(lru_store::lru_lookup(t, q) == lru_store::lru_lookup(
                s,
                q,
            ));
        }
    } else {
        assert forall|q: K| q != k implies #[trigger] lru_store::lru_lookup(
            keep(s, cap, k, v),
            q,
        ) == lru_store::lru_lookup(s, q) by {
            assert(keep(s, cap, k, v) == t);
        }
    }
}

/// Keeping a valid pair in its shard keeps the shard valid.
proof fn lemma_keep_forward(
    s: Seq<(Seq<char>, Answer)>,
    index: int,
    cap: nat,
    k: Seq<char>,
    a: Answer,
)
    requires
        forward_shard_valid(s, index, cap),
        cap > 0,
        shard_of(k) == index,
        text::ascii_lower(k) == k,
    ensures
        forward_shard_valid(keep(s, cap, k, a), index, cap),
{
    lemma_keep(s, cap, k, a);
    let t = keep(s, cap, k, a);
    assert forall|j: int| 0 <= j < t.len() implies shard_of(#[trigger] t[j].0) == index
        && text::ascii_lower(t[j].0) == t[j].0 by {
        if t[j] != (k, a) {
            assert(s.contains(t[j]));
            let m = choose|m: int| 0 <= m < s.len() && s[m] == t[j];
            assert(shard_of(s[m].0) == index);
        }
    }
}

/// Keeping a valid pair in its shard keeps the shard valid.
proof fn lemma_keep_reverse(
    s: Seq<(IpKey, NameHolder)>,
    index: int,
    cap: nat,
    ip: IpAddr,
    holder: NameHolder,
)
    requires
        reverse_shard_valid(s, index, cap),
        cap > 0,
        shard_of_ip(ip) == index,
    ensures
        reverse_shard_valid(keep(s, cap, key_of_ip(ip), holder), index, cap),
{
    let k = key_of_ip(ip);
    lemma_keep(s, cap, k, holder);
    let t = keep(s, cap, k, holder);
    assert forall|j: int| 0 <= j < t.len() implies shard_of_ip(ip_of_key(#[trigger] t[j].0))
        == index && key_of_ip(ip_of_key(t[j].0)) == t[j].0 by {
        if t[j] != (k, holder) {
            assert(s.contains(t[j]));
            let m = choose|m: int| 0 <= m < s.len() && s[m] == t[j];
            assert(shard_of_ip(ip_of_key(s[m].0)) == index);
        }
    }
}

impl CacheModel {
    /// Every way of keeping an answer or a name keeps the cache valid.
    pub proof fn law_keep_valid(
        self,
        domain: Seq<char>,
        a: Answer,
        ips: Seq<IpAddr>,
        holder: NameHolder,
    )
        requires
            self.valid(),
        ensures
            text::ascii_lower(domain) == domain ==> self.keep_answer(domain, a).valid(),
            self.keep_names(ips, holder).valid(),
            self.keep_names(ips, holder).forward == self.forward,
            self.keep_names(ips, holder).fwd_cap == self.fwd_cap,
            self.keep_names(ips, holder).rev_cap == self.rev_cap,
        decreases ips.len(),
    {
        let i = shard_of(domain);
        if text::ascii_lower(domain) == domain {
            lemma_keep_forward(self.forward[i], i, self.fwd_cap, domain, a);
        }
        if ips.len() > 0 {
            self.law_keep_valid(domain, a, ips.drop_last(), holder);
            let before = self.keep_names(ips.drop_last(), holder);
            let j = shard_of_ip(ips.last());
            lemma_keep_reverse(before.reverse[j], j, before.rev_cap, ips.last(), holder);
        }
    }
}

// ---------------------------------------------------------------------------
// Reading and merging answers
// ---------------------------------------------------------------------------

/// When the answer of a single family expires.
pub open spec fn expiry(a: Answer, family: QueryFamilies) -> Instant {
    if family is IPV4 {
        a.expire_v4
    } else {
        a.expire_v6
    }
}

/// Whether the answer holds something fresh for a single family.
pub open spec fn fresh(a: Answer, family: QueryFamilies, now: Instant) -> bool {
    a.queried.includes(family) && expiry(a, family).nanos > now.nanos
}

/// Whether the answer holds something fresh for any family.
pub open spec fn live(a: Answer, now: Instant) -> bool {
    fresh(a, QueryFamilies::IPV4, now) || fresh(a, QueryFamilies::IPV6, now)
}

/// The addresses of one family, in their order.
pub open spec fn of_family(ips: Seq<IpAddr>, family: QueryFamilies) -> Seq<IpAddr> {
    ips.filter(|ip: IpAddr| family.includes(families::family_of(ip)))
}

/// What the cache can say for one family.
#[derive(Debug)]
pub enum FamilyCacheHit {
    /// A fresh answer: at least one address of the family, and the time left.
    Answer(IpList, Duration),
    /// The family was asked for and is fresh, but has no address.
    NoData,
    /// The family was never asked for, or its answer has expired.
    Miss,
}

/// The model of a [`FamilyCacheHit`].
#[verifier::ext_equal]
pub enum FamilyHit {
    Answer(Seq<IpAddr>, Duration),
    NoData,
    Miss,
}

impl View for FamilyCacheHit {
    type V = FamilyHit;

    open spec fn view(&self) -> FamilyHit {
        match self {
            FamilyCacheHit::Answer(ips, ttl) => FamilyHit::Answer(ips@, *ttl),
            FamilyCacheHit::NoData => FamilyHit::NoData,
            FamilyCacheHit::Miss => FamilyHit::Miss,
        }
    }
}

impl FamilyCacheHit {
    /// Whether the cache can answer for the family.
    pub fn is_fresh(&self) -> (b: bool)
        ensures
            b == !(self is Miss),
    {
        match self {
            FamilyCacheHit::Miss => false,
            _ => true,
        }
    }
}

/// What an answer says for one family, given whether the family is fresh.
pub open spec fn family_hit_of(
    a: Answer,
    family: QueryFamilies,
    is_fresh: bool,
    now: Instant,
) -> FamilyHit {
    if !is_fresh {
        FamilyHit::Miss
    } else if of_family(a.ips, family).len() == 0 {
        FamilyHit::NoData
    } else {
        FamilyHit::Answer(
            of_family(a.ips, family),
            Duration { nanos: clock::time_left(expiry(a, family), now) as u128 },
        )
    }
}

/// The addresses of `ips` that belong to `family`, in their order.
fn select_family(ips: &[IpAddr], family: QueryFamilies) -> (out: Vec<IpAddr>)
    ensures
        out@ == of_family(ips@, family),
{
    let ghost pred = |ip: IpAddr| family.includes(families::family_of(ip));
    let mut out: Vec<IpAddr> = Vec::new();
    let mut i: usize = 0;
    while i < ips.len()
        invariant
            i <= ips@.len(),
            pred == (|ip: IpAddr| family.includes(families::family_of(ip))),
            out@ == ips@.take(i as int).filter(pred),
        decreases ips@.len() - i,
    {
        let ip = ips[i];
        proof {
            assert(ips@.take(i + 1) =~= ips@.take(i as int).push(ip));
            ips@.take(i as int).lemma_filter_push(ip, pred);
        }
        if family.contains_ip(ip) {
            out.push(ip);
        }
        i += 1;
    }
    assert(ips@.take(i as int) =~= ips@);
    out
}

/// What an entry says for one family; `is_fresh` tells whether the family was
/// asked for and has not expired.
pub fn family_hit(
    entry: &CacheEntry,
    family: QueryFamilies,
    is_fresh: bool,
    now: Instant,
) -> (hit: FamilyCacheHit)
    ensures
        hit@ == family_hit_of(entry@, family, is_fresh, now),
{
    if !is_fresh {
        return FamilyCacheHit::Miss;
    }
    let at = match family {
        QueryFamilies::IPV4 => entry.expire_v4,
        _ => entry.expire_v6,
    };
    let remaining = at.saturating_duration_since(now);
    let chosen = select_family(entry.ips.as_slice(), family);
    if chosen.len() == 0 {
        FamilyCacheHit::NoData
    } else {
        let mut ips = IpList::new();
        ips.extend_from_slice(chosen.as_slice());
        assert(ips@ =~= chosen@);
        FamilyCacheHit::Answer(ips, remaining)
    }
}

/// The addresses of a family hit.
pub open spec fn hit_ips(hit: FamilyHit) -> Seq<IpAddr> {
    match hit {
        FamilyHit::Answer(ips, _) => ips,
        _ => Seq::empty(),
    }
}

/// A cached answer as read at some point in time.
#[derive(Debug)]
pub struct CacheLookup {
    /// The addresses of the families that are still fresh, IPv4 first.
    pub ips: IpList,
    /// The least time left of the families with addresses; zero without any.
    pub ttl: Duration,
    pub v4: FamilyCacheHit,
    pub v6: FamilyCacheHit,
}

/// The time an answer with these two family hits is still good for.
pub open spec fn joint_ttl(v4: FamilyHit, v6: FamilyHit) -> nat {
    match (v4, v6) {
        (FamilyHit::Answer(_, a), FamilyHit::Answer(_, b)) => if a.nanos <= b.nanos {
            a.nanos as nat
        } else {
            b.nanos as nat
        },
        (FamilyHit::Answer(_, a), _) => a.nanos as nat,
        (_, FamilyHit::Answer(_, b)) => b.nanos as nat,
        _ => 0,
    }
}

impl CacheLookup {
    /// Whether this is what reading `a` at `now` gives.
    pub open spec fn reads(&self, a: Answer, now: Instant) -> bool {
        &&& self.v4@ == family_hit_of(
            a,
            QueryFamilies::IPV4,
            fresh(a, QueryFamilies::IPV4, now),
            now,
        )
        &&& self.v6@ == family_hit_of(
            a,
            QueryFamilies::IPV6,
            fresh(a, QueryFamilies::IPV6, now),
            now,
        )
        &&& self.ips@ == hit_ips(self.v4@) + hit_ips(self.v6@)
        &&& self.ttl.nanos == joint_ttl(self.v4@, self.v6@)
    }
}

/// Reads an entry; nothing when no family is fresh.
fn read_entry(entry: &CacheEntry, now: Instant) -> (out: Option<CacheLookup>)
    ensures
        match out {
            Some(l) => live(entry@, now) && l.reads(entry@, now),
            None => !live(entry@, now),
        },
{
    let v4_fresh = entry.queried.contains(QueryFamilies::IPV4) && entry.expire_v4.nanos
        > now.nanos;
    let v6_fresh = entry.queried.contains(QueryFamilies::IPV6) && entry.expire_v6.nanos
        > now.nanos;
    if !v4_fresh && !v6_fresh {
        return None;
    }
    let v4 = family_hit(entry, QueryFamilies::IPV4, v4_fresh, now);
    let v6 = family_hit(entry, QueryFamilies::IPV6, v6_fresh, now);
    let mut ips = IpList::new();
    let mut ttl: Option<Duration> = None;
    if let FamilyCacheHit::Answer(hit_ips, left) = &v4 {
        ips.extend_from_slice(hit_ips.as_slice());
        assert(ips@ =~= hit_ips@);
        ttl = Some(*left);
    }
    let ghost first = ips@;
    if let FamilyCacheHit::Answer(hit_ips, left) = &v6 {
        ips.extend_from_slice(hit_ips.as_slice());
        assert(ips@ =~= first + hit_ips@);
        ttl = match ttl {
            Some(t) => Some(t.min(*left)),
            None => Some(*left),
        };
    }
    let out = CacheLookup {
        ips,
        ttl: match ttl {
            Some(t) => t,
            None => Duration::zero(),
        },
        v4,
        v6,
    };
    assert(out.ips@ =~= hit_ips(out.v4@) + hit_ips(out.v6@));
    Some(out)
}

/// A sorted list without repeats, after `ip` was added to it.
pub open spec fn insert_ip(s: Seq<IpAddr>, ip: IpAddr) -> Seq<IpAddr>
    decreases s.len(),
{
    if s.len() == 0 {
        seq![ip]
    } else if net::ip_before(ip, s[0]) {
        seq![ip] + s
    } else if ip == s[0] {
        s
    } else {
        seq![s[0]] + insert_ip(s.drop_first(), ip)
    }
}

/// The addresses of a list in order, each once.
pub open spec fn sorted_ips(s: Seq<IpAddr>) -> Seq<IpAddr>
    decreases s.len(),
{
    if s.len() == 0 {
        s
    } else {
        insert_ip(sorted_ips(s.drop_last()), s.last())
    }
}

/// Each address comes before all later ones.
pub open spec fn ips_ordered(s: Seq<IpAddr>) -> bool {
    forall|i: int, j: int| 0 <= i < j < s.len() ==> net::ip_before(s[i], s[j])
}

proof fn lemma_insert_ip(s: Seq<IpAddr>, ip: IpAddr)
    requires
        ips_ordered(s),
    ensures
        ips_ordered(insert_ip(s, ip)),
        forall|q: IpAddr| #[trigger] insert_ip(s, ip).contains(q) <==> s.contains(q) || q == ip,
    decreases s.len(),
{
    let out = insert_ip(s, ip);
    if s.len() == 0 {
        assert(out[0] == ip);
    } else if net::ip_before(ip, s[0]) {
        assert(out =~= seq![ip] + s);
        assert(out[0] == ip);
        assert forall|i: int, j: int| 0 <= i < j < out.len() implies net::ip_before(
            out[i],
            out[j],
        ) by {
            assert(out[j] == s[j - 1]);
            if i > 0 {
                assert(out[i] == s[i - 1]);
            } else if j > 1 {
                assert(net::ip_before(s[0], s[j - 1]));
            }
        }
        assert forall|q: IpAddr| s.contains(q) implies out.contains(q) by {
            let i = choose|i: int| 0 <= i < s.len() && s[i] == q;
            assert(out[i + 1] == q);
        }
    } else if ip == s[0] {
    } else {
        let rest = s.drop_first();
        lemma_insert_ip(rest, ip);
        let tail = insert_ip(rest, ip);
        assert(out =~= seq![s[0]] + tail);
        assert(net::ip_before(s[0], ip));
        assert forall|j: int| 0 <= j < tail.len() implies net::ip_before(s[0], #[trigger] tail[j])
            by {
            assert(tail.contains(tail[j]));
            if tail[j] != ip {
                let i = choose|i: int| 0 <= i < rest.len() && rest[i] == tail[j];
                assert(s[i + 1] == tail[j]);
            }
        }
        assert forall|i: int, j: int| 0 <= i < j < out.len() implies net::ip_before(
            out[i],
            out[j],
        ) by {
            assert(out[j] == tail[j - 1]);
            if i > 0 {
                assert(out[i] == tail[i - 1]);
            }
        }
        assert forall|q: IpAddr| #[trigger] out.contains(q) <==> s.contains(q) || q == ip by {
            if out.contains(q) {
                let i = choose|i: int| 0 <= i < out.len() && out[i] == q;
                if i > 0 {
                    assert(tail[i - 1] == q);
                    assert(tail.contains(q));
                    if q != ip {
                        let m = choose|m: int| 0 <= m < rest.len() && rest[m] == q;
                        assert(s[m + 1] == q);
                    }
                } else {
                    assert(s[0] == q);
                }
            }
            if s.contains(q) || q == ip {
                if q == s[0] {
                    assert(out[0] == q);
                } else {
                    if q != ip {
                        let m = choose|m: int| 0 <= m < s.len() && s[m] == q;
                        assert(rest[m - 1] == q);
                    }
                    assert(tail.contains(q));
                    let m = choose|m: int| 0 <= m < tail.len() && tail[m] == q;
                    assert(out[m + 1] == q);
                }
            }
        }
    }
}

/// Sorting keeps exactly the addresses of the list, in order and each once.
pub proof fn law_sorted_ips(s: Seq<IpAddr>)
    ensures
        ips_ordered(sorted_ips(s)),
        forall|q: IpAddr| #[trigger] sorted_ips(s).contains(q) <==> s.contains(q),
    decreases s.len(),
{
    if s.len() > 0 {
        let head = s.drop_last();
        law_sorted_ips(head);
        lemma_insert_ip(sorted_ips(head), s.last());
        assert forall|q: IpAddr| #[trigger] sorted_ips(s).contains(q) <==> s.contains(q) by {
            if s.contains(q) && q != s.last() {
                let i = choose|i: int| 0 <= i < s.len() && s[i] == q;
                assert(head[i] == q);
            }
            if head.contains(q) {
                let i = choose|i: int| 0 <= i < head.len() && head[i] == q;
                assert(s[i] == q);
            }
            if q == s.last() {
                assert(s[s.len() - 1] == q);
            }
        }
    }
}

/// Where `insert_ip` puts a new address.
proof fn lemma_insert_ip_at(s: Seq<IpAddr>, ip: IpAddr, at: int)
    requires
        ips_ordered(s),
        0 <= at <= s.len(),
        forall|j: int| 0 <= j < at ==> net::ip_before(#[trigger] s[j], ip),
        at < s.len() ==> !net::ip_before(s[at], ip),
    ensures
        insert_ip(s, ip) == if at < s.len() && s[at] == ip {
            s
        } else {
            s.insert(at, ip)
        },
    decreases s.len(),
{
    if s.len() == 0 {
        assert(s.insert(0, ip) =~= seq![ip]);
    } else if at == 0 {
        if s[0] != ip {
            assert(s.insert(0, ip) =~= seq![ip] + s);
        }
    } else {
        let rest = s.drop_first();
        assert(net::ip_before(s[0], ip));
        assert forall|j: int| 0 <= j < at - 1 implies net::ip_before(#[trigger] rest[j], ip) by {
            assert(rest[j] == s[j + 1]);
        }
        lemma_insert_ip_at(rest, ip, at - 1);
        if at < s.len() && s[at] == ip {
            assert(seq![s[0]] + rest =~= s);
        } else {
            assert(seq![s[0]] + rest.insert(at - 1, ip) =~= s.insert(at, ip));
        }
    }
}

/// Sorts a list of addresses and drops repeats.
pub fn sort_ips(ips: &[IpAddr]) -> (out: Vec<IpAddr>)
    ensures
        out@ == sorted_ips(ips@),
{
    let mut out: Vec<IpAddr> = Vec::new();
    let mut i: usize = 0;
    while i < ips.len()
        invariant
            i <= ips@.len(),
            out@ == sorted_ips(ips@.take(i as int)),
        decreases ips@.len() - i,
    {
        let ip = ips[i];
        let mut at: usize = 0;
        while at < out.len() && out[at].before(&ip)
            invariant
                at <= out@.len(),
                forall|j: int| 0 <= j < at ==> net::ip_before(#[trigger] out@[j], ip),
            decreases out@.len() - at,
        {
            at += 1;
        }
        proof {
            law_sorted_ips(ips@.take(i as int));
            lemma_insert_ip_at(out@, ip, at as int);
            assert(ips@.take(i + 1).drop_last() =~= ips@.take(i as int));
        }
        if at == out.len() || out[at] != ip {
            out.insert(at, ip);
        }
        i += 1;
    }
    assert(ips@.take(i as int) =~= ips@);
    out
}

/// Whether the other family's part of an existing answer outlives a merge.
pub open spec fn keeps_other(existing: Option<Answer>, family: QueryFamilies, now: Instant) -> bool {
    match existing {
        Some(e) => fresh(e, other_family(family), now),
        None => false,
    }
}

/// The family that a single family is not.
pub open spec fn other_family(family: QueryFamilies) -> QueryFamilies {
    if family is IPV4 {
        QueryFamilies::IPV6
    } else {
        QueryFamilies::IPV4
    }
}

/// The answer after one family's addresses were merged into an existing one.
/// The other family keeps its addresses and its own expiry while it is fresh.
pub open spec fn merged_answer(
    existing: Option<Answer>,
    family: QueryFamilies,
    ips: Seq<IpAddr>,
    expire: Instant,
    source: Option<Seq<char>>,
    now: Instant,
) -> Answer {
    let kept = keeps_other(existing, family, now);
    let e = existing->0;
    Answer {
        ips: sorted_ips(
            if kept {
                of_family(e.ips, other_family(family)) + ips
            } else {
                ips
            },
        ),
        expire_v4: if kept && !(family is IPV4) {
            e.expire_v4
        } else {
            expire
        },
        expire_v6: if kept && family is IPV4 {
            e.expire_v6
        } else {
            expire
        },
        source: if source is None && existing is Some {
            e.source
        } else {
            source
        },
        queried: if kept {
            QueryFamilies::of(
                e.queried.has_v4() || family.has_v4(),
                e.queried.has_v6() || family.has_v6(),
            )
        } else {
            family
        },
    }
}

/// The characters of an optional text.
pub open spec fn str_of(s: Option<&str>) -> Option<Seq<char>> {
    match s {
        Some(t) => Some(t@),
        None => None,
    }
}

/// The families a replacing answer counts as asked for.
pub open spec fn families_of(ips: Seq<IpAddr>) -> QueryFamilies {
    if ips.len() == 0 {
        QueryFamilies::BOTH
    } else {
        QueryFamilies::of(
            exists|i: int| 0 <= i < ips.len() && ips[i] is V4,
            exists|i: int| 0 <= i < ips.len() && ips[i] is V6,
        )
    }
}

/// The name kept for the addresses of an answer: the domain in lower case, for
/// the answer's life or [`REVERSE_TTL_FLOOR`], whichever is longer.
pub open spec fn holder_of(domain: Seq<char>, ttl: Duration, now: Instant) -> NameHolder {
    NameHolder {
        domain: text::ascii_lower(domain),
        expire_at: Instant {
            nanos: (now.nanos + if ttl.nanos >= REVERSE_TTL_FLOOR {
                ttl.nanos
            } else {
                REVERSE_TTL_FLOOR
            }) as u128,
        },
    }
}

/// The fresh addresses of an answer, IPv4 first.
pub open spec fn answer_ips(a: Answer, now: Instant) -> Seq<IpAddr> {
    (if fresh(a, QueryFamilies::IPV4, now) {
        of_family(a.ips, QueryFamilies::IPV4)
    } else {
        Seq::empty()
    }) + (if fresh(a, QueryFamilies::IPV6, now) {
        of_family(a.ips, QueryFamilies::IPV6)
    } else {
        Seq::empty()
    })
}

/// The least time left over the families with fresh addresses; zero without
/// any.
pub open spec fn answer_ttl(a: Answer, now: Instant) -> nat {
    joint_ttl(
        family_hit_of(a, QueryFamilies::IPV4, fresh(a, QueryFamilies::IPV4, now), now),
        family_hit_of(a, QueryFamilies::IPV6, fresh(a, QueryFamilies::IPV6, now), now),
    )
}

impl CacheModel {
    /// The answer kept for a lower-case domain, where something of it is fresh.
    pub open spec fn live_answer(self, domain: Seq<char>, now: Instant) -> Option<Answer> {
        match self.answer(domain) {
            Some(a) => if live(a, now) {
                Some(a)
            } else {
                None
            },
            None => None,
        }
    }

    /// The cache after a lower-case domain was looked up.
    pub open spec fn after_read(self, domain: Seq<char>, now: Instant) -> CacheModel {
        let i = shard_of(domain);
        match self.answer(domain) {
            None => self,
            Some(a) => CacheModel {
                forward: self.forward.update(
                    i,
                    if live(a, now) {
                        lru_store::lru_touch(self.forward[i], domain)
                    } else {
                        lru_store::lru_without(self.forward[i], domain)
                    },
                ),
                ..self
            },
        }
    }

    /// The name of an address, while it is good.
    pub open spec fn live_name(self, ip: IpAddr, now: Instant) -> Option<Seq<char>> {
        match self.name(ip) {
            Some(h) => if h.expire_at.nanos > now.nanos {
                Some(h.domain)
            } else {
                None
            },
            None => None,
        }
    }

    /// The cache after the name of an address was looked up.
    pub open spec fn after_name_read(self, ip: IpAddr, now: Instant) -> CacheModel {
        let i = shard_of_ip(ip);
        match self.name(ip) {
            None => self,
            Some(h) => CacheModel {
                reverse: self.reverse.update(
                    i,
                    if h.expire_at.nanos > now.nanos {
                        lru_store::lru_touch(self.reverse[i], key_of_ip(ip))
                    } else {
                        lru_store::lru_without(self.reverse[i], key_of_ip(ip))
                    },
                ),
                ..self
            },
        }
    }

    /// The cache after an answer replaced the domain's previous one.
    pub open spec fn put(
        self,
        domain: Seq<char>,
        ips: Seq<IpAddr>,
        ttl: Duration,
        source: Option<Seq<char>>,
        now: Instant,
    ) -> CacheModel {
        let expire = Instant { nanos: (now.nanos + ttl.nanos) as u128 };
        self.keep_names(ips, holder_of(domain, ttl, now)).keep_answer(
            text::ascii_lower(domain),
            Answer {
                ips,
                expire_v4: expire,
                expire_v6: expire,
                source,
                queried: families_of(ips),
            },
        )
    }

    /// The cache after one family's answer was merged into the domain's entry.
    pub open spec fn merge(
        self,
        domain: Seq<char>,
        family: QueryFamilies,
        ips: Seq<IpAddr>,
        ttl: Duration,
        source: Option<Seq<char>>,
        now: Instant,
    ) -> CacheModel {
        let key = text::ascii_lower(domain);
        let expire = Instant { nanos: (now.nanos + ttl.nanos) as u128 };
        self.keep_names(ips, holder_of(domain, ttl, now)).keep_answer(
            key,
            merged_answer(self.answer(key), family, ips, expire, source, now),
        )
    }
}

/// How many pairs all shards hold.
pub open spec fn total_len<A>(shards: Seq<Seq<A>>) -> nat
    decreases shards.len(),
{
    if shards.len() == 0 {
        0
    } else {
        total_len(shards.drop_last()) + shards.last().len()
    }
}

/// The pairs of a shard whose answer has something fresh.
pub open spec fn live_pairs(shard: Seq<(Seq<char>, Answer)>, now: Instant) -> Seq<
    (Seq<char>, Answer),
> {
    shard.filter(|p: (Seq<char>, Answer)| live(p.1, now))
}

/// A live answer, for display.
#[derive(Debug)]
pub struct DnsCacheSnapshotEntry {
    pub name: String,
    pub ips: Vec<IpAddr>,
    /// How long the entry as a whole stays resolvable: the time left of the
    /// family that expires last.
    pub ttl: Duration,
    pub source: Option<String>,
}

/// The model of a [`DnsCacheSnapshotEntry`].
#[verifier::ext_equal]
pub struct SnapshotRow {
    pub name: Seq<char>,
    pub ips: Seq<IpAddr>,
    pub ttl: Duration,
    pub source: Option<Seq<char>>,
}

impl View for DnsCacheSnapshotEntry {
    type V = SnapshotRow;

    open spec fn view(&self) -> SnapshotRow {
        SnapshotRow {
            name: self.name@,
            ips: self.ips@,
            ttl: self.ttl,
            source: lru_store::text_of(self.source),
        }
    }
}

/// The models of some snapshot entries.
pub open spec fn entries_of(entries: Seq<DnsCacheSnapshotEntry>) -> Seq<SnapshotRow> {
    entries.map_values(|e: DnsCacheSnapshotEntry| e@)
}

/// The time left of the fresh family that expires last.
pub open spec fn longest_left(a: Answer, now: Instant) -> nat {
    let v4 = if fresh(a, QueryFamilies::IPV4, now) {
        clock::time_left(a.expire_v4, now)
    } else {
        0
    };
    let v6 = if fresh(a, QueryFamilies::IPV6, now) {
        clock::time_left(a.expire_v6, now)
    } else {
        0
    };
    if v4 >= v6 {
        v4
    } else {
        v6
    }
}

/// How a pair is displayed.
pub open spec fn row_of(pair: (Seq<char>, Answer), now: Instant) -> SnapshotRow {
    SnapshotRow {
        name: pair.0,
        ips: pair.1.ips,
        ttl: Duration { nanos: longest_left(pair.1, now) as u128 },
        source: pair.1.source,
    }
}

/// How the pairs of a shard are displayed.
pub open spec fn pair_rows(shard: Seq<(Seq<char>, Answer)>, now: Instant) -> Seq<SnapshotRow> {
    shard.map_values(|p: (Seq<char>, Answer)| row_of(p, now))
}

/// How the pairs of all shards are displayed, shard by shard.
pub open spec fn snapshot_rows(shards: Seq<Seq<(Seq<char>, Answer)>>, now: Instant) -> Seq<
    SnapshotRow,
>
    decreases shards.len(),
{
    if shards.len() == 0 {
        Seq::empty()
    } else {
        snapshot_rows(shards.drop_last(), now) + pair_rows(shards.last(), now)
    }
}

impl CacheModel {
    /// The cache without the answers that have nothing fresh left.
    pub open spec fn without_dead_answers(self, now: Instant) -> CacheModel {
        CacheModel {
            forward: self.forward.map_values(
                |shard: Seq<(Seq<char>, Answer)>| live_pairs(shard, now),
            ),
            ..self
        }
    }
}

/// Whether one of the first `n` pairs is kept under `name` and has nothing
/// fresh left.
spec fn names_dead(
    shard: Seq<(Seq<char>, Answer)>,
    n: int,
    now: Instant,
    name: Seq<char>,
) -> bool {
    exists|j: int| 0 <= j < n && #[trigger] shard[j].0 == name && !live(shard[j].1, now)
}

/// The row that displays one entry.
fn snapshot_row(name: &String, entry: &CacheEntry, now: Instant) -> (row: DnsCacheSnapshotEntry)
    ensures
        row@ == row_of((name@, entry@), now),
{
    let mut latest = now;
    if entry.queried.contains(QueryFamilies::IPV4) && entry.expire_v4.nanos > latest.nanos {
        latest = entry.expire_v4;
    }
    if entry.queried.contains(QueryFamilies::IPV6) && entry.expire_v6.nanos > latest.nanos {
        latest = entry.expire_v6;
    }
    let mut ips: Vec<IpAddr> = Vec::new();
    ips.extend_from_slice(entry.ips.as_slice());
    assert(ips@ =~= entry.ips@);
    DnsCacheSnapshotEntry {
        name: name.clone(),
        ips,
        ttl: latest.saturating_duration_since(now),
        source: entry.source.clone(),
    }
}

/// Names never decrease.
spec fn rows_sorted(rows: Seq<DnsCacheSnapshotEntry>) -> bool {
    forall|i: int, j: int|
        0 <= i < j < rows.len() ==> !text::text_before(rows[j].name@, rows[i].name@)
}

/// Puts a row behind the rows whose names do not come after its own.
fn insert_row(rows: &mut Vec<DnsCacheSnapshotEntry>, row: DnsCacheSnapshotEntry)
    requires
        rows_sorted(old(rows)@),
    ensures
        rows_sorted(final(rows)@),
        entries_of(final(rows)@).to_multiset() == entries_of(old(rows)@).to_multiset().insert(row@),
{
    let mut at: usize = rows.len();
    while at > 0 && text::precedes(row.name.as_str(), rows[at - 1].name.as_str())
        invariant
            at <= rows@.len(),
            rows@ == old(rows)@,
            forall|j: int|
                at <= j < rows@.len() ==> text::text_before(row.name@, #[trigger] rows@[j].name@),
        decreases at,
    {
        at -= 1;
    }
    let ghost before = rows@;
    rows.insert(at, row);
    proof {
        let after = rows@;
        assert(entries_of(after) =~= entries_of(before).insert(at as int, row@));
        vstd::seq_lib::to_multiset_insert(entries_of(before), at as int, row@);
        assert forall|i: int, j: int| 0 <= i < j < after.len() implies !text::text_before(
            after[j].name@,
            after[i].name@,
        ) by {
            if j == at as int {
                assert(after[i] == before[i]);
                assert(!text::text_before(row.name@, before[at - 1].name@));
                if i + 1 < at {
                    assert(!text::text_before(before[at - 1].name@, before[i].name@));
                } else {
                    assert(i == at - 1);
                }
                text::lemma_text_order(before[i].name@, before[at - 1].name@, row.name@);
                assert(!text::text_before(row.name@, before[i].name@));
            } else if i == at as int {
                assert(after[j] == before[j - 1]);
                assert(text::text_before(row.name@, before[j - 1].name@));
                text::lemma_text_order(row.name@, before[j - 1].name@, row.name@);
                assert(!text::text_before(before[j - 1].name@, row.name@));
            } else {
                let i0 = if i < at {
                    i
                } else {
                    i - 1
                };
                let j0 = if j < at {
                    j
                } else {
                    j - 1
                };
                assert(after[i] == before[i0] && after[j] == before[j0]);
                assert(!text::text_before(before[j0].name@, before[i0].name@));
            }
        }
    }
}

/// The mappings of a shard that have not expired.
pub open spec fn live_names(shard: Seq<(IpKey, NameHolder)>, now: Instant) -> Seq<
    (IpKey, NameHolder),
> {
    shard.filter(|p: (IpKey, NameHolder)| p.1.expire_at.nanos > now.nanos)
}

/// One live address-to-name mapping. The pair of snapshot and restore lets an
/// embedding process carry the reverse table over a restart.
#[derive(Debug)]
pub struct ReverseSnapshotEntry {
    pub ip: IpAddr,
    pub domain: String,
    /// The mapping's life left when it was captured.
    pub remaining: Duration,
}

/// The model of a [`ReverseSnapshotEntry`].
#[verifier::ext_equal]
pub struct NameRow {
    pub ip: IpAddr,
    pub domain: Seq<char>,
    pub remaining: Duration,
}

impl View for ReverseSnapshotEntry {
    type V = NameRow;

    open spec fn view(&self) -> NameRow {
        NameRow { ip: self.ip, domain: self.domain@, remaining: self.remaining }
    }
}

/// The models of some mappings.
pub open spec fn names_of(entries: Seq<ReverseSnapshotEntry>) -> Seq<NameRow> {
    entries.map_values(|e: ReverseSnapshotEntry| e@)
}

/// How a mapping is captured.
pub open spec fn name_row_of(pair: (IpKey, NameHolder), now: Instant) -> NameRow {
    NameRow {
        ip: ip_of_key(pair.0),
        domain: pair.1.domain,
        remaining: Duration { nanos: clock::time_left(pair.1.expire_at, now) as u128 },
    }
}

/// How the mappings of a shard are captured.
pub open spec fn mapping_rows(shard: Seq<(IpKey, NameHolder)>, now: Instant) -> Seq<NameRow> {
    shard.map_values(|p: (IpKey, NameHolder)| name_row_of(p, now))
}

/// How the mappings of all shards are captured, shard by shard.
pub open spec fn name_rows(shards: Seq<Seq<(IpKey, NameHolder)>>, now: Instant) -> Seq<NameRow>
    decreases shards.len(),
{
    if shards.len() == 0 {
        Seq::empty()
    } else {
        name_rows(shards.drop_last(), now) + mapping_rows(shards.last(), now)
    }
}

impl CacheModel {
    /// The cache without the mappings that have expired.
    pub open spec fn without_expired_names(self, now: Instant) -> CacheModel {
        CacheModel {
            reverse: self.reverse.map_values(
                |shard: Seq<(IpKey, NameHolder)>| live_names(shard, now),
            ),
            ..self
        }
    }

    /// The cache after captured mappings were kept again, in order.
    pub open spec fn restore(self, rows: Seq<NameRow>, now: Instant) -> CacheModel
        decreases rows.len(),
    {
        if rows.len() == 0 {
            self
        } else {
            let before = self.restore(rows.drop_last(), now);
            let row = rows.last();
            if row.remaining.nanos == 0 {
                before
            } else {
                before.keep_name(
                    row.ip,
                    NameHolder {
                        domain: row.domain,
                        expire_at: Instant { nanos: (now.nanos + row.remaining.nanos) as u128 },
                    },
                )
            }
        }
    }
}

/// Whether one of the first `n` mappings is kept under `key` and has expired.
spec fn key_expired(shard: Seq<(IpKey, NameHolder)>, n: int, now: Instant, key: IpKey) -> bool {
    exists|j: int|
        0 <= j < n && #[trigger] shard[j].0 == key && shard[j].1.expire_at.nanos <= now.nanos
}

/// Addresses never decrease.
pub open spec fn names_sorted(rows: Seq<ReverseSnapshotEntry>) -> bool {
    forall|i: int, j: int|
        0 <= i < j < rows.len() ==> !net::ip_before(rows[j].ip, rows[i].ip)
}

fn key_ip(key: IpKey) -> (ip: IpAddr)
    requires
        key_of_ip(ip_of_key(key)) == key,
    ensures
        ip == ip_of_key(key),
{
    if key.0 == 4 {
        IpAddr::V4(key.1 as u32)
    } else {
        IpAddr::V6(key.1)
    }
}

/// Puts a row behind the rows whose addresses do not come after its own.
fn insert_name(rows: &mut Vec<ReverseSnapshotEntry>, row: ReverseSnapshotEntry)
    requires
        names_sorted(old(rows)@),
    ensures
        names_sorted(final(rows)@),
        names_of(final(rows)@).to_multiset() == names_of(old(rows)@).to_multiset().insert(row@),
{
    let mut at: usize = rows.len();
    while at > 0 && row.ip.before(&rows[at - 1].ip)
        invariant
            at <= rows@.len(),
            rows@ == old(rows)@,
            forall|j: int|
                at <= j < rows@.len() ==> net::ip_before(row.ip, #[trigger] rows@[j].ip),
        decreases at,
    {
        at -= 1;
    }
    let ghost before = rows@;
    rows.insert(at, row);
    proof {
        let after = rows@;
        assert(names_of(after) =~= names_of(before).insert(at as int, row@));
        vstd::seq_lib::to_multiset_insert(names_of(before), at as int, row@);
        assert forall|i: int, j: int| 0 <= i < j < after.len() implies !net::ip_before(
            after[j].ip,
            after[i].ip,
        ) by {
            if j == at as int {
                assert(after[i] == before[i]);
                if i + 1 < at {
                    assert(!net::ip_before(before[at - 1].ip, before[i].ip));
                }
            } else if i == at as int {
                assert(after[j] == before[j - 1]);
            } else {
                let i0 = if i < at {
                    i
                } else {
                    i - 1
                };
                let j0 = if j < at {
                    j
                } else {
                    j - 1
                };
                assert(after[i] == before[i0] && after[j] == before[j0]);
            }
        }
    }
}

// ---------------------------------------------------------------------------
// The cache
// ---------------------------------------------------------------------------

/// The answer cache.
pub struct DnsCache {
    cache: Vec<ForwardStore>,
    reverse: Vec<ReverseStore>,
    fwd_shard_cap: usize,
    rev_shard_cap: usize,
}

impl View for DnsCache {
    type V = CacheModel;

    closed spec fn view(&self) -> CacheModel {
        CacheModel {
            forward: Seq::new(self.cache@.len(), |i: int| lru_store::forward_pairs(self.cache@[i])),
            reverse: Seq::new(
                self.reverse@.len(),
                |i: int| lru_store::reverse_pairs(self.reverse@[i]),
            ),
            fwd_cap: self.fwd_shard_cap as nat,
            rev_cap: self.rev_shard_cap as nat,
        }
    }
}

impl DnsCache {
    /// No store evicts on its own.
    pub closed spec fn stores_unbounded(&self) -> bool {
        &&& forall|i: int|
            0 <= i < self.cache@.len() ==> lru_store::forward_cap(#[trigger] self.cache@[i])
                == usize::MAX
        &&& forall|i: int|
            0 <= i < self.reverse@.len() ==> lru_store::reverse_cap(#[trigger] self.reverse@[i])
                == usize::MAX
    }

    /// What holds of every cache.
    pub open spec fn wf(&self) -> bool {
        self@.valid() && self.stores_unbounded()
    }

    /// An empty cache for about `capacity` answers: each forward shard gets
    /// its share of `capacity` but at least 8 entries, and each reverse shard
    /// its share of four times that but at least 16.
    pub fn new(capacity: usize) -> (cache: Self)
        ensures
            cache.wf(),
            forall|i: int| 0 <= i < SHARDS ==> #[trigger] cache@.forward[i].len() == 0,
            forall|i: int| 0 <= i < SHARDS ==> #[trigger] cache@.reverse[i].len() == 0,
            cache@.fwd_cap == forward_share(capacity as int),
            cache@.rev_cap == reverse_share(capacity as int),
    {
        let mut cache: Vec<ForwardStore> = Vec::new();
        let mut reverse: Vec<ReverseStore> = Vec::new();
        let mut i: usize = 0;
        while i < SHARDS
            invariant
                i <= SHARDS,
                cache@.len() == i,
                reverse@.len() == i,
                forall|j: int|
                    0 <= j < i ==> lru_store::forward_pairs(#[trigger] cache@[j]).len() == 0
                        && lru_store::forward_cap(cache@[j]) == usize::MAX,
                forall|j: int|
                    0 <= j < i ==> lru_store::reverse_pairs(#[trigger] reverse@[j]).len() == 0
                        && lru_store::reverse_cap(reverse@[j]) == usize::MAX,
            decreases SHARDS - i,
        {
            cache.push(lru_store::forward_new());
            reverse.push(lru_store::reverse_new());
            i += 1;
        }
        let fwd_total: usize = if capacity >= SHARDS {
            capacity
        } else {
            SHARDS
        };
        let wanted: usize = match capacity.checked_mul(REVERSE_CAP_MULTIPLIER) {
            Some(n) => n,
            None => usize::MAX,
        };
        let rev_total: usize = if wanted >= SHARDS {
            wanted
        } else {
            SHARDS
        };
        let out = DnsCache {
            cache,
            reverse,
            fwd_shard_cap: per_shard_cap(fwd_total, 8),
            rev_shard_cap: per_shard_cap(rev_total, 16),
        };
        assert forall|j: int| 0 <= j < SHARDS implies forward_shard_valid(
            #[trigger] out@.forward[j],
            j,
            out@.fwd_cap,
        ) by {
            assert(lru_store::forward_pairs(out.cache@[j]).len() == 0);
        }
        assert forall|j: int| 0 <= j < SHARDS implies reverse_shard_valid(
            #[trigger] out@.reverse[j],
            j,
            out@.rev_cap,
        ) by {
            assert(lru_store::reverse_pairs(out.reverse@[j]).len() == 0);
        }
        out
    }

    /// Keeps a name for one address and restores the shard's limit.
    fn keep_name(&mut self, ip: IpAddr, entry: ReverseEntry)
        requires
            old(self).wf(),
        ensures
            final(self).wf(),
            final(self)@ == old(self)@.keep_name(ip, entry@),
    {
        let i: usize = shard_ip(ip);
        let key = ip_key(ip);
        proof {
            old(self)@.law_keep_valid(
                Seq::empty(),
                arbitrary(),
                seq![ip],
                entry@,
            );
            assert(seq![ip].drop_last() =~= Seq::<IpAddr>::empty());
            assert(old(self)@.keep_names(Seq::empty(), entry@) == old(self)@);
            assert(old(self)@.keep_names(seq![ip], entry@) == old(self)@.keep_name(ip, entry@));
            lru_store::lemma_without(old(self)@.reverse[i as int], key);
        }
        let ghost before = old(self)@.reverse[i as int];
        assert(reverse_shard_valid(before, i as int, old(self)@.rev_cap));
        lru_store::reverse_put(&mut self.reverse[i], key, entry);
        if lru_store::reverse_len(&self.reverse[i]) > self.rev_shard_cap {
            lru_store::reverse_pop_lru(&mut self.reverse[i]);
        }
        assert(self@ =~= old(self)@.keep_name(ip, entry@));
    }

    /// Keeps a name for each address, in order.
    fn keep_names(&mut self, ips: &[IpAddr], domain: &String, expire_at: Instant)
        requires
            old(self).wf(),
        ensures
            final(self).wf(),
            final(self)@ == old(self)@.keep_names(
                ips@,
                NameHolder { domain: domain@, expire_at },
            ),
    {
        let ghost holder = NameHolder { domain: domain@, expire_at };
        let mut i: usize = 0;
        while i < ips.len()
            invariant
                i <= ips@.len(),
                self.wf(),
                holder == (NameHolder { domain: domain@, expire_at }),
                self@ == old(self)@.keep_names(ips@.take(i as int), holder),
            decreases ips@.len() - i,
        {
            self.keep_name(ips[i], ReverseEntry { domain: domain.clone(), expire_at });
            assert(ips@.take(i + 1).drop_last() =~= ips@.take(i as int));
            i += 1;
        }
        assert(ips@.take(i as int) =~= ips@);
    }

    /// Keeps an answer and restores the shard's limit.
    fn keep_answer(&mut self, domain: String, entry: CacheEntry)
        requires
            old(self).wf(),
            text::ascii_lower(domain@) == domain@,
        ensures
            final(self).wf(),
            final(self)@ == old(self)@.keep_answer(domain@, entry@),
    {
        let i: usize = shard_str(domain.as_str());
        let ghost key = domain@;
        let ghost before = old(self)@.forward[i as int];
        proof {
            old(self)@.law_keep_valid(key, entry@, Seq::empty(), arbitrary());
            lru_store::lemma_without(before, key);
            assert(forward_shard_valid(before, i as int, old(self)@.fwd_cap));
        }
        lru_store::forward_put(&mut self.cache[i], domain, entry);
        if lru_store::forward_len(&self.cache[i]) > self.fwd_shard_cap {
            lru_store::forward_pop_lru(&mut self.cache[i]);
        }
        assert(self@ =~= old(self)@.keep_answer(key, entry@));
    }

    /// Reads the answer for a domain at time `now`. Reading makes the answer
    /// the most recently used one of its shard; an answer with nothing fresh
    /// left is evicted.
    pub fn get_lookup(&mut self, domain: &str, now: Instant) -> (out: Option<CacheLookup>)
        requires
            old(self).wf(),
        ensures
            final(self).wf(),
            final(self)@ == old(self)@.after_read(text::ascii_lower(domain@), now),
            match old(self)@.live_answer(text::ascii_lower(domain@), now) {
                None => out is None,
                Some(a) => out matches Some(l) && l.reads(a, now),
            },
    {
        let key = normalize_domain(domain);
        let i: usize = shard_str(key.as_str());
        let ghost shard = old(self)@.forward[i as int];
        proof {
            assert(forward_shard_valid(shard, i as int, old(self)@.fwd_cap));
            lemma_forward_reads(shard, i as int, old(self)@.fwd_cap, key@);
        }
        let mut out: Option<CacheLookup> = None;
        let mut expired = false;
        if let Some(entry) = lru_store::forward_get(&mut self.cache[i], key.as_str()) {
            out = read_entry(entry, now);
            if out.is_none() {
                expired = true;
            }
        }
        if expired {
            lru_store::forward_pop(&mut self.cache[i], key.as_str());
        }
        proof {
            let new = self@.forward[i as int];
            assert(forward_shard_valid(new, i as int, self@.fwd_cap));
            assert(self@.forward =~= old(self)@.forward.update(i as int, new));
            if old(self)@.answer(key@) is None {
                assert(new == shard);
                assert(self@ =~= old(self)@);
            }
        }
        out
    }

    /// The addresses and the time left of a cached answer: the two fields of
    /// [`Self::get_lookup`].
    pub fn get_with_ttl(&mut self, domain: &str, now: Instant) -> (out: Option<(IpList, Duration)>)
        requires
            old(self).wf(),
        ensures
            final(self).wf(),
            final(self)@ == old(self)@.after_read(text::ascii_lower(domain@), now),
            match old(self)@.live_answer(text::ascii_lower(domain@), now) {
                None => out is None,
                Some(a) => out matches Some(p) && p.0@ == answer_ips(a, now) && p.1.nanos
                    == answer_ttl(a, now),
            },
    {
        match self.get_lookup(domain, now) {
            Some(l) => Some((l.ips, l.ttl)),
            None => None,
        }
    }

    /// The addresses of a cached answer.
    pub fn get(&mut self, domain: &str, now: Instant) -> (out: Option<IpList>)
        requires
            old(self).wf(),
        ensures
            final(self).wf(),
            final(self)@ == old(self)@.after_read(text::ascii_lower(domain@), now),
            match old(self)@.live_answer(text::ascii_lower(domain@), now) {
                None => out is None,
                Some(a) => out matches Some(ips) && ips@ == answer_ips(a, now),
            },
    {
        match self.get_with_ttl(domain, now) {
            Some(p) => Some(p.0),
            None => None,
        }
    }

    /// Replaces the whole answer of a domain. Every address also gets the
    /// domain as its name, for at least [`REVERSE_TTL_FLOOR`].
    fn put_replacing(
        &mut self,
        domain: &str,
        ips: &[IpAddr],
        ttl: Duration,
        source: Option<&str>,
        queried: QueryFamilies,
        now: Instant,
    )
        requires
            old(self).wf(),
            now.nanos + ttl.nanos <= u128::MAX,
            now.nanos + REVERSE_TTL_FLOOR <= u128::MAX,
        ensures
            final(self).wf(),
            final(self)@ == old(self)@.keep_names(
                ips@,
                holder_of(domain@, ttl, now),
            ).keep_answer(
                text::ascii_lower(domain@),
                Answer {
                    ips: ips@,
                    expire_v4: Instant { nanos: (now.nanos + ttl.nanos) as u128 },
                    expire_v6: Instant { nanos: (now.nanos + ttl.nanos) as u128 },
                    source: str_of(source),
                    queried,
                },
            ),
    {
        let expire = now.plus(ttl);
        let reverse_expire_at = now.plus(ttl.max(Duration { nanos: REVERSE_TTL_FLOOR }));
        let key = normalize_domain(domain);
        proof {
            text::lemma_lower_idempotent(domain@);
        }
        self.keep_names(ips, &key, reverse_expire_at);
        let mut owned: Vec<IpAddr> = Vec::new();
        owned.extend_from_slice(ips);
        assert(owned@ =~= ips@);
        let source_text: Option<String> = match source {
            Some(t) => Some(t.to_owned()),
            None => None,
        };
        let entry = CacheEntry {
            ips: owned,
            expire_v4: expire,
            expire_v6: expire,
            source: source_text,
            queried,
        };
        self.keep_answer(key, entry);
    }

    /// Keeps an answer together with the upstream that supplied it, in place
    /// of the domain's previous answer. The families asked for are those of
    /// the addresses; without any address the answer is a negative one for
    /// both families.
    pub fn put_with_source(
        &mut self,
        domain: &str,
        ips: &[IpAddr],
        ttl: Duration,
        source: Option<&str>,
        now: Instant,
    )
        requires
            old(self).wf(),
            now.nanos + ttl.nanos <= u128::MAX,
            now.nanos + REVERSE_TTL_FLOOR <= u128::MAX,
        ensures
            final(self).wf(),
            final(self)@ == old(self)@.put(domain@, ips@, ttl, str_of(source), now),
    {
        let queried = if ips.len() == 0 {
            QueryFamilies::BOTH
        } else {
            QueryFamilies::from_ips(ips)
        };
        assert(queried == families_of(ips@));
        self.put_replacing(domain, ips, ttl, source, queried, now);
    }

    /// Keeps an answer without naming its upstream.
    pub fn put(&mut self, domain: &str, ips: &[IpAddr], ttl: Duration, now: Instant)
        requires
            old(self).wf(),
            now.nanos + ttl.nanos <= u128::MAX,
            now.nanos + REVERSE_TTL_FLOOR <= u128::MAX,
        ensures
            final(self).wf(),
            final(self)@ == old(self)@.put(domain@, ips@, ttl, None, now),
    {
        self.put_with_source(domain, ips, ttl, None, now);
    }

    /// Merges one family's answer into the domain's entry. The other family
    /// keeps its addresses and its own expiry while it is fresh; an empty list
    /// is a negative answer for the family. Without a `source` the entry keeps
    /// the one it has.
    pub fn merge_family(
        &mut self,
        domain: &str,
        family: QueryFamilies,
        ips: &[IpAddr],
        ttl: Duration,
        source: Option<&str>,
        now: Instant,
    )
        requires
            old(self).wf(),
            family is IPV4 || family is IPV6,
            now.nanos + ttl.nanos <= u128::MAX,
            now.nanos + REVERSE_TTL_FLOOR <= u128::MAX,
        ensures
            final(self).wf(),
            final(self)@ == old(self)@.merge(domain@, family, ips@, ttl, str_of(source), now),
    {
        let expire = now.plus(ttl);
        let reverse_expire_at = now.plus(ttl.max(Duration { nanos: REVERSE_TTL_FLOOR }));
        let key = normalize_domain(domain);
        let ghost k = key@;
        proof {
            text::lemma_lower_idempotent(domain@);
            old(self)@.law_keep_valid(
                k,
                arbitrary(),
                ips@,
                NameHolder { domain: k, expire_at: reverse_expire_at },
            );
        }
        self.keep_names(ips, &key, reverse_expire_at);
        let ghost named = self@;

        let other = family.other();
        let i: usize = shard_str(key.as_str());
        let ghost shard = named.forward[i as int];
        let ghost existing_answer = lru_store::lru_lookup(shard, k);
        assert(existing_answer == old(self)@.answer(k));
        proof {
            assert(forward_shard_valid(shard, i as int, named.fwd_cap));
            lemma_forward_reads(shard, i as int, named.fwd_cap, k);
        }
        let mut merged: Vec<IpAddr> = Vec::new();
        let mut merged_queried = family;
        let mut expire_v4 = expire;
        let mut expire_v6 = expire;
        let mut merged_source: Option<String> = match source {
            Some(t) => Some(t.to_owned()),
            None => None,
        };
        if let Some(existing) = lru_store::forward_get(&mut self.cache[i], key.as_str()) {
            if existing.queried.contains(other) {
                let other_fresh = match other {
                    QueryFamilies::IPV4 => existing.expire_v4.nanos > now.nanos,
                    _ => existing.expire_v6.nanos > now.nanos,
                };
                if other_fresh {
                    merged = select_family(existing.ips.as_slice(), other);
                    match other {
                        QueryFamilies::IPV4 => {
                            expire_v4 = existing.expire_v4;
                        },
                        _ => {
                            expire_v6 = existing.expire_v6;
                        },
                    }
                    merged_queried = existing.queried.union(family);
                }
            }
            if merged_source.is_none() {
                merged_source = existing.source.clone();
            }
        }
        let ghost kept = merged@;
        merged.extend_from_slice(ips);
        assert(merged@ =~= kept + ips@);
        proof {
            if !keeps_other(existing_answer, family, now) {
                assert(merged@ =~= ips@);
            }
        }
        let entry = CacheEntry {
            ips: sort_ips(merged.as_slice()),
            expire_v4,
            expire_v6,
            source: merged_source,
            queried: merged_queried,
        };
        assert(entry@ == merged_answer(existing_answer, family, ips@, expire, str_of(source), now));
        let ghost touched = self@;
        proof {
            let new = touched.forward[i as int];
            assert(forward_shard_valid(new, i as int, touched.fwd_cap));
            assert(touched.forward =~= named.forward.update(i as int, new));
            assert(touched.valid());
        }
        self.keep_answer(key, entry);
        assert(self@ =~= named.keep_answer(k, entry@));
    }

    /// The name of an address at time `now`. Reading makes the mapping the
    /// most recently used one of its shard; an expired mapping is evicted.
    pub fn reverse_lookup(&mut self, ip: IpAddr, now: Instant) -> (out: Option<String>)
        requires
            old(self).wf(),
        ensures
            final(self).wf(),
            final(self)@ == old(self)@.after_name_read(ip, now),
            match old(self)@.live_name(ip, now) {
                None => out is None,
                Some(d) => out matches Some(t) && t@ == d,
            },
    {
        let i: usize = shard_ip(ip);
        let key = ip_key(ip);
        let ghost shard = old(self)@.reverse[i as int];
        proof {
            assert(reverse_shard_valid(shard, i as int, old(self)@.rev_cap));
            lemma_reverse_reads(shard, i as int, old(self)@.rev_cap, key);
        }
        let mut out: Option<String> = None;
        let mut expired = false;
        if let Some(entry) = lru_store::reverse_get(&mut self.reverse[i], &key) {
            if entry.expire_at.nanos > now.nanos {
                out = Some(entry.domain.clone());
            } else {
                expired = true;
            }
        }
        if expired {
            lru_store::reverse_pop(&mut self.reverse[i], &key);
        }
        proof {
            let new = self@.reverse[i as int];
            assert(reverse_shard_valid(new, i as int, self@.rev_cap));
            assert(self@.reverse =~= old(self)@.reverse.update(i as int, new));
            if old(self)@.name(ip) is None {
                assert(new == shard);
                assert(self@ =~= old(self)@);
            }
        }
        out
    }

    /// Keeps a name for an address until a given instant.
    pub fn put_reverse_with_expiry(&mut self, ip: IpAddr, domain: &str, expire_at: Instant)
        requires
            old(self).wf(),
        ensures
            final(self).wf(),
            final(self)@ == old(self)@.keep_name(
                ip,
                NameHolder { domain: domain@, expire_at },
            ),
    {
        self.keep_name(ip, ReverseEntry { domain: domain.to_owned(), expire_at });
    }

    /// Takes everything out.
    pub fn clear(&mut self)
        requires
            old(self).wf(),
        ensures
            final(self).wf(),
            forall|i: int| 0 <= i < SHARDS ==> #[trigger] final(self)@.forward[i].len() == 0,
            forall|i: int| 0 <= i < SHARDS ==> #[trigger] final(self)@.reverse[i].len() == 0,
            final(self)@.fwd_cap == old(self)@.fwd_cap,
            final(self)@.rev_cap == old(self)@.rev_cap,
    {
        let mut i: usize = 0;
        while i < SHARDS
            invariant
                i <= SHARDS,
                self.wf(),
                forall|j: int| 0 <= j < i ==> #[trigger] self@.forward[j].len() == 0,
                forall|j: int| 0 <= j < i ==> #[trigger] self@.reverse[j].len() == 0,
                self@.fwd_cap == old(self)@.fwd_cap,
                self@.rev_cap == old(self)@.rev_cap,
            decreases SHARDS - i,
        {
            let ghost before = self@;
            lru_store::forward_clear(&mut self.cache[i]);
            lru_store::reverse_clear(&mut self.reverse[i]);
            assert(self@.forward =~= before.forward.update(i as int, Seq::empty()));
            assert(self@.reverse =~= before.reverse.update(i as int, Seq::empty()));
            assert(forward_shard_valid(self@.forward[i as int], i as int, self@.fwd_cap));
            assert(reverse_shard_valid(self@.reverse[i as int], i as int, self@.rev_cap));
            i += 1;
        }
    }

    /// The number of answers kept, expired ones that were not yet evicted
    /// included.
    pub fn forward_len(&self) -> (n: usize)
        requires
            self.wf(),
        ensures
            n == total_len(self@.forward),
    {
        let mut n: usize = 0;
        let mut i: usize = 0;
        while i < SHARDS
            invariant
                i <= SHARDS,
                self.wf(),
                n == total_len(self@.forward.take(i as int)),
                n <= i * self@.fwd_cap,
            decreases SHARDS - i,
        {
            proof {
                assert(self@.forward.take(i + 1).drop_last() =~= self@.forward.take(i as int));
                assert(forward_shard_valid(self@.forward[i as int], i as int, self@.fwd_cap));
                assert((i + 1) * self@.fwd_cap == i * self@.fwd_cap + self@.fwd_cap
                    && (i + 1) * self@.fwd_cap <= SHARDS * self@.fwd_cap) by (nonlinear_arith)
                    requires
                        i + 1 <= SHARDS,
                ;
            }
            n = n + lru_store::forward_len(&self.cache[i]);
            i += 1;
        }
        assert(self@.forward.take(i as int) =~= self@.forward);
        n
    }

    /// The number of address-to-name mappings kept, expired ones that were not
    /// yet evicted included.
    pub fn reverse_len(&self) -> (n: usize)
        requires
            self.wf(),
        ensures
            n == total_len(self@.reverse),
    {
        let mut n: usize = 0;
        let mut i: usize = 0;
        while i < SHARDS
            invariant
                i <= SHARDS,
                self.wf(),
                n == total_len(self@.reverse.take(i as int)),
                n <= i * self@.rev_cap,
            decreases SHARDS - i,
        {
            proof {
                assert(self@.reverse.take(i + 1).drop_last() =~= self@.reverse.take(i as int));
                assert(reverse_shard_valid(self@.reverse[i as int], i as int, self@.rev_cap));
                assert((i + 1) * self@.rev_cap == i * self@.rev_cap + self@.rev_cap
                    && (i + 1) * self@.rev_cap <= SHARDS * self@.rev_cap) by (nonlinear_arith)
                    requires
                        i + 1 <= SHARDS,
                ;
            }
            n = n + lru_store::reverse_len(&self.reverse[i]);
            i += 1;
        }
        assert(self@.reverse.take(i as int) =~= self@.reverse);
        n
    }

    /// Evicts the answers of one shard that have nothing fresh left.
    fn evict_forward(&mut self, i: usize, now: Instant)
        requires
            old(self).wf(),
            i < SHARDS,
        ensures
            final(self).wf(),
            final(self)@ == (CacheModel {
                forward: old(self)@.forward.update(
                    i as int,
                    live_pairs(old(self)@.forward[i as int], now),
                ),
                ..old(self)@
            }),
    {
        let ghost shard = old(self)@.forward[i as int];
        let ghost cap = old(self)@.fwd_cap;
        assert(forward_shard_valid(shard, i as int, cap));
        let mut dead: Vec<String> = Vec::new();
        let items = lru_store::forward_items(&self.cache[i]);
        let mut n: usize = 0;
        while n < items.len()
            invariant
                n <= items@.len(),
                items@.len() == shard.len(),
                forall|j: int|
                    0 <= j < items@.len() ==> (#[trigger] items@[j]).0@ == shard[j].0
                        && items@[j].1@ == shard[j].1,
                forall|m: int|
                    0 <= m < dead@.len() ==> names_dead(
                        shard,
                        n as int,
                        now,
                        (#[trigger] dead@[m])@,
                    ),
                forall|j: int|
                    0 <= j < n && !live(#[trigger] shard[j].1, now) ==> exists|m: int|
                        0 <= m < dead@.len() && shard[j].0 == (#[trigger] dead@[m])@,
            decreases items@.len() - n,
        {
            let entry = items[n].1;
            let v4 = entry.queried.contains(QueryFamilies::IPV4) && entry.expire_v4.nanos
                > now.nanos;
            let v6 = entry.queried.contains(QueryFamilies::IPV6) && entry.expire_v6.nanos
                > now.nanos;
            let ghost before = dead@;
            if !v4 && !v6 {
                dead.push(items[n].0.clone());
                assert(shard[n as int].0 == dead@[before.len() as int]@);
            }
            assert forall|q: int| 0 <= q < dead@.len() implies names_dead(
                shard,
                n + 1,
                now,
                (#[trigger] dead@[q])@,
            ) by {
                if q < before.len() {
                    assert(names_dead(shard, n as int, now, before[q]@));
                } else {
                    assert(shard[n as int].0 == dead@[q]@);
                }
            }
            assert forall|j: int| 0 <= j < n + 1 && !live(#[trigger] shard[j].1, now) implies exists|
                m: int,
            |
                0 <= m < dead@.len() && shard[j].0 == (#[trigger] dead@[m])@ by {
                if j < n {
                    let m = choose|m: int|
                        0 <= m < before.len() && shard[j].0 == (#[trigger] before[m])@;
                    assert(shard[j].0 == dead@[m]@);
                } else {
                    assert(shard[j].0 == dead@[before.len() as int]@);
                }
            }
            n += 1;
        }
        let ghost keys = dead@.map_values(|d: String| d@);
        let mut m: usize = 0;
        proof {
            assert(keys.take(0) =~= Seq::<Seq<char>>::empty());
            assert(self@ =~= (CacheModel {
                forward: old(self)@.forward.update(
                    i as int,
                    lru_store::lru_without_all(shard, keys.take(0)),
                ),
                ..old(self)@
            }));
        }
        while m < dead.len()
            invariant
                m <= dead@.len(),
                i < SHARDS,
                keys == dead@.map_values(|d: String| d@),
                self.wf(),
                shard == old(self)@.forward[i as int],
                old(self)@.forward.len() == SHARDS,
                self@ == (CacheModel {
                    forward: old(self)@.forward.update(
                        i as int,
                        lru_store::lru_without_all(shard, keys.take(m as int)),
                    ),
                    ..old(self)@
                }),
            decreases dead@.len() - m,
        {
            let ghost before = self@;
            let ghost s = self@.forward[i as int];
            proof {
                assert(forward_shard_valid(s, i as int, self@.fwd_cap));
                lemma_forward_reads(s, i as int, self@.fwd_cap, keys[m as int]);
                assert(keys.take(m + 1).drop_last() =~= keys.take(m as int));
            }
            lru_store::forward_pop(&mut self.cache[i], dead[m].as_str());
            proof {
                assert(self@.forward =~= before.forward.update(
                    i as int,
                    lru_store::lru_without(s, keys[m as int]),
                ));
                assert(self@.forward =~= old(self)@.forward.update(
                    i as int,
                    lru_store::lru_without_all(shard, keys.take(m + 1)),
                ));
            }
            m += 1;
        }
        proof {
            assert(keys.take(m as int) =~= keys);
            let keep = |p: (Seq<char>, Answer)| live(p.1, now);
            assert forall|j: int| 0 <= j < shard.len() implies (#[trigger] keep(shard[j])
                <==> !keys.contains(shard[j].0)) by {
                if !live(shard[j].1, now) {
                    let q = choose|q: int|
                        0 <= q < dead@.len() && shard[j].0 == (#[trigger] dead@[q])@;
                    assert(keys[q] == shard[j].0);
                }
                if keys.contains(shard[j].0) {
                    let q = choose|q: int| 0 <= q < keys.len() && keys[q] == shard[j].0;
                    assert(dead@[q]@ == shard[j].0);
                    assert(names_dead(shard, n as int, now, dead@[q]@));
                    let j2 = choose|j2: int|
                        0 <= j2 < shard.len() && shard[j2].0 == dead@[q]@ && !live(
                            shard[j2].1,
                            now,
                        );
                    assert(j2 == j);
                }
            }
            lru_store::lemma_without_all(shard, keys, keep);
        }
    }

    /// The live answers, sorted by name. Answers with nothing fresh left are
    /// evicted.
    pub fn snapshot(&mut self, now: Instant) -> (out: Vec<DnsCacheSnapshotEntry>)
        requires
            old(self).wf(),
        ensures
            final(self).wf(),
            final(self)@ == old(self)@.without_dead_answers(now),
            entries_of(out@).to_multiset() == snapshot_rows(
                final(self)@.forward,
                now,
            ).to_multiset(),
            forall|i: int, j: int|
                0 <= i < j < out@.len() ==> !text::text_before(out@[j].name@, out@[i].name@),
    {
        let mut out: Vec<DnsCacheSnapshotEntry> = Vec::new();
        let mut i: usize = 0;
        proof {
            assert(entries_of(out@) =~= Seq::empty());
            assert(old(self)@.forward.take(0) =~= Seq::empty());
        }
        while i < SHARDS
            invariant
                i <= SHARDS,
                self.wf(),
                old(self)@.valid(),
                self@.reverse == old(self)@.reverse,
                self@.fwd_cap == old(self)@.fwd_cap,
                self@.rev_cap == old(self)@.rev_cap,
                forall|j: int|
                    0 <= j < i ==> #[trigger] self@.forward[j] == live_pairs(
                        old(self)@.forward[j],
                        now,
                    ),
                forall|j: int|
                    i <= j < SHARDS ==> #[trigger] self@.forward[j] == old(self)@.forward[j],
                rows_sorted(out@),
                entries_of(out@).to_multiset() == snapshot_rows(
                    self@.forward.take(i as int),
                    now,
                ).to_multiset(),
            decreases SHARDS - i,
        {
            let ghost before = self@;
            self.evict_forward(i, now);
            assert(self@.forward.take(i as int) =~= before.forward.take(i as int));
            let ghost shard = self@.forward[i as int];
            let ghost done = snapshot_rows(self@.forward.take(i as int), now);
            let items = lru_store::forward_items(&self.cache[i]);
            let mut n: usize = 0;
            assert(done + pair_rows(shard.take(0), now) =~= done);
            while n < items.len()
                invariant
                    n <= items@.len(),
                    items@.len() == shard.len(),
                    forall|j: int|
                        0 <= j < items@.len() ==> (#[trigger] items@[j]).0@ == shard[j].0
                            && items@[j].1@ == shard[j].1,
                    rows_sorted(out@),
                    entries_of(out@).to_multiset() == (done + pair_rows(
                        shard.take(n as int),
                        now,
                    )).to_multiset(),
                decreases items@.len() - n,
            {
                let row = snapshot_row(items[n].0, items[n].1, now);
                proof {
                    let upto = done + pair_rows(shard.take(n as int), now);
                    assert(shard.take(n + 1) =~= shard.take(n as int).push(shard[n as int]));
                    assert(done + pair_rows(shard.take(n + 1), now) =~= upto.push(row@));
                    vstd::seq_lib::to_multiset_build(upto, row@);
                }
                insert_row(&mut out, row);
                n += 1;
            }
            proof {
                assert(shard.take(n as int) =~= shard);
                assert(self@.forward.take(i + 1).drop_last() =~= self@.forward.take(i as int));
            }
            i += 1;
        }
        proof {
            assert(self@.forward.take(i as int) =~= self@.forward);
            assert(self@ =~= old(self)@.without_dead_answers(now));
        }
        out
    }

    /// Evicts the expired mappings of one shard.
    fn evict_reverse(&mut self, i: usize, now: Instant)
        requires
            old(self).wf(),
            i < SHARDS,
        ensures
            final(self).wf(),
            final(self)@ == (CacheModel {
                reverse: old(self)@.reverse.update(
                    i as int,
                    live_names(old(self)@.reverse[i as int], now),
                ),
                ..old(self)@
            }),
    {
        let ghost shard = old(self)@.reverse[i as int];
        assert(reverse_shard_valid(shard, i as int, old(self)@.rev_cap));
        let mut dead: Vec<IpKey> = Vec::new();
        let items = lru_store::reverse_items(&self.reverse[i]);
        let mut n: usize = 0;
        while n < items.len()
            invariant
                n <= items@.len(),
                items@.len() == shard.len(),
                forall|j: int|
                    0 <= j < items@.len() ==> *(#[trigger] items@[j]).0 == shard[j].0
                        && items@[j].1@ == shard[j].1,
                forall|m: int|
                    0 <= m < dead@.len() ==> key_expired(
                        shard,
                        n as int,
                        now,
                        #[trigger] dead@[m],
                    ),
                forall|j: int|
                    0 <= j < n && (#[trigger] shard[j]).1.expire_at.nanos <= now.nanos
                        ==> dead@.contains(shard[j].0),
            decreases items@.len() - n,
        {
            let ghost before = dead@;
            if items[n].1.expire_at.nanos <= now.nanos {
                dead.push(*items[n].0);
                assert(dead@[before.len() as int] == shard[n as int].0);
            }
            assert forall|q: int| 0 <= q < dead@.len() implies key_expired(
                shard,
                n + 1,
                now,
                #[trigger] dead@[q],
            ) by {
                if q < before.len() {
                    assert(key_expired(shard, n as int, now, before[q]));
                } else {
                    assert(shard[n as int].0 == dead@[q]);
                }
            }
            assert forall|j: int|
                0 <= j < n + 1 && (#[trigger] shard[j]).1.expire_at.nanos
                    <= now.nanos implies dead@.contains(shard[j].0) by {
                if j < n {
                    let q = choose|q: int| 0 <= q < before.len() && before[q] == shard[j].0;
                    assert(dead@[q] == shard[j].0);
                }
            }
            n += 1;
        }
        let ghost keys = dead@;
        let mut m: usize = 0;
        proof {
            assert(keys.take(0) =~= Seq::<IpKey>::empty());
            assert(self@ =~= (CacheModel {
                reverse: old(self)@.reverse.update(
                    i as int,
                    lru_store::lru_without_all(shard, keys.take(0)),
                ),
                ..old(self)@
            }));
        }
        while m < dead.len()
            invariant
                m <= dead@.len(),
                i < SHARDS,
                keys == dead@,
                self.wf(),
                shard == old(self)@.reverse[i as int],
                old(self)@.reverse.len() == SHARDS,
                self@ == (CacheModel {
                    reverse: old(self)@.reverse.update(
                        i as int,
                        lru_store::lru_without_all(shard, keys.take(m as int)),
                    ),
                    ..old(self)@
                }),
            decreases dead@.len() - m,
        {
            let ghost before = self@;
            let ghost s = self@.reverse[i as int];
            proof {
                assert(reverse_shard_valid(s, i as int, self@.rev_cap));
                lemma_reverse_reads(s, i as int, self@.rev_cap, keys[m as int]);
                assert(keys.take(m + 1).drop_last() =~= keys.take(m as int));
            }
            lru_store::reverse_pop(&mut self.reverse[i], &dead[m]);
            proof {
                assert(self@.reverse =~= before.reverse.update(
                    i as int,
                    lru_store::lru_without(s, keys[m as int]),
                ));
                assert(self@.reverse =~= old(self)@.reverse.update(
                    i as int,
                    lru_store::lru_without_all(shard, keys.take(m + 1)),
                ));
            }
            m += 1;
        }
        proof {
            assert(keys.take(m as int) =~= keys);
            let keep = |p: (IpKey, NameHolder)| p.1.expire_at.nanos > now.nanos;
            assert forall|j: int| 0 <= j < shard.len() implies (#[trigger] keep(shard[j])
                <==> !keys.contains(shard[j].0)) by {
                if keys.contains(shard[j].0) {
                    let q = choose|q: int| 0 <= q < keys.len() && keys[q] == shard[j].0;
                    assert(key_expired(shard, n as int, now, dead@[q]));
                    let j2 = choose|j2: int|
                        0 <= j2 < n && #[trigger] shard[j2].0 == dead@[q]
                            && shard[j2].1.expire_at.nanos <= now.nanos;
                    assert(j2 == j);
                }
            }
            lru_store::lemma_without_all(shard, keys, keep);
        }
    }

    /// The live address-to-name mappings with their time left, sorted by
    /// address. Expired mappings are evicted.
    pub fn reverse_snapshot(&mut self, now: Instant) -> (out: Vec<ReverseSnapshotEntry>)
        requires
            old(self).wf(),
        ensures
            final(self).wf(),
            final(self)@ == old(self)@.without_expired_names(now),
            names_of(out@).to_multiset() == name_rows(final(self)@.reverse, now).to_multiset(),
            names_sorted(out@),
    {
        let mut out: Vec<ReverseSnapshotEntry> = Vec::new();
        let mut i: usize = 0;
        proof {
            assert(names_of(out@) =~= Seq::empty());
            assert(old(self)@.reverse.take(0) =~= Seq::empty());
        }
        while i < SHARDS
            invariant
                i <= SHARDS,
                self.wf(),
                old(self)@.valid(),
                self@.forward == old(self)@.forward,
                self@.fwd_cap == old(self)@.fwd_cap,
                self@.rev_cap == old(self)@.rev_cap,
                forall|j: int|
                    0 <= j < i ==> #[trigger] self@.reverse[j] == live_names(
                        old(self)@.reverse[j],
                        now,
                    ),
                forall|j: int|
                    i <= j < SHARDS ==> #[trigger] self@.reverse[j] == old(self)@.reverse[j],
                names_sorted(out@),
                names_of(out@).to_multiset() == name_rows(
                    self@.reverse.take(i as int),
                    now,
                ).to_multiset(),
            decreases SHARDS - i,
        {
            let ghost before = self@;
            self.evict_reverse(i, now);
            assert(self@.reverse.take(i as int) =~= before.reverse.take(i as int));
            let ghost shard = self@.reverse[i as int];
            let ghost done = name_rows(self@.reverse.take(i as int), now);
            assert(reverse_shard_valid(shard, i as int, self@.rev_cap));
            let items = lru_store::reverse_items(&self.reverse[i]);
            let mut n: usize = 0;
            assert(done + mapping_rows(shard.take(0), now) =~= done);
            while n < items.len()
                invariant
                    n <= items@.len(),
                    items@.len() == shard.len(),
                    forall|j: int|
                        0 <= j < items@.len() ==> *(#[trigger] items@[j]).0 == shard[j].0
                            && items@[j].1@ == shard[j].1,
                    forall|j: int|
                        0 <= j < shard.len() ==> key_of_ip(ip_of_key(#[trigger] shard[j].0))
                            == shard[j].0,
                    names_sorted(out@),
                    names_of(out@).to_multiset() == (done + mapping_rows(
                        shard.take(n as int),
                        now,
                    )).to_multiset(),
                decreases items@.len() - n,
            {
                let key = *items[n].0;
                assert(key_of_ip(ip_of_key(shard[n as int].0)) == key);
                let row = ReverseSnapshotEntry {
                    ip: key_ip(key),
                    domain: items[n].1.domain.clone(),
                    remaining: items[n].1.expire_at.saturating_duration_since(now),
                };
                proof {
                    let upto = done + mapping_rows(shard.take(n as int), now);
                    assert(shard.take(n + 1) =~= shard.take(n as int).push(shard[n as int]));
                    assert(done + mapping_rows(shard.take(n + 1), now) =~= upto.push(row@));
                    vstd::seq_lib::to_multiset_build(upto, row@);
                }
                insert_name(&mut out, row);
                n += 1;
            }
            proof {
                assert(shard.take(n as int) =~= shard);
                assert(self@.reverse.take(i + 1).drop_last() =~= self@.reverse.take(i as int));
            }
            i += 1;
        }
        proof {
            assert(self@.reverse.take(i as int) =~= self@.reverse);
            assert(self@ =~= old(self)@.without_expired_names(now));
        }
        out
    }

    /// Keeps mappings captured by [`Self::reverse_snapshot`] again, each for
    /// its time left; a mapping without time left is skipped. A mapping
    /// replaces the one its address has.
    pub fn restore_reverse(&mut self, entries: Vec<ReverseSnapshotEntry>, now: Instant)
        requires
            old(self).wf(),
            forall|i: int|
                0 <= i < entries@.len() ==> now.nanos + (#[trigger] entries@[i]).remaining.nanos
                    <= u128::MAX,
        ensures
            final(self).wf(),
            final(self)@ == old(self)@.restore(names_of(entries@), now),
    {
        let mut i: usize = 0;
        let ghost rows = names_of(entries@);
        assert(rows.take(0) =~= Seq::empty());
        while i < entries.len()
            invariant
                i <= entries@.len(),
                self.wf(),
                rows == names_of(entries@),
                forall|j: int|
                    0 <= j < entries@.len() ==> now.nanos + (
                    #[trigger] entries@[j]).remaining.nanos <= u128::MAX,
                self@ == old(self)@.restore(rows.take(i as int), now),
            decreases entries@.len() - i,
        {
            let e = &entries[i];
            assert(rows.take(i + 1).drop_last() =~= rows.take(i as int));
            assert(rows[i as int] == e@);
            if e.remaining.nanos > 0 {
                self.keep_name(
                    e.ip,
                    ReverseEntry { domain: e.domain.clone(), expire_at: now.plus(e.remaining) },
                );
            }
            i += 1;
        }
        assert(rows.take(i as int) =~= rows);
    }
}

/// Using a key of a valid shard, or taking it out, keeps the shard valid.
proof fn lemma_forward_reads(s: Seq<(Seq<char>, Answer)>, index: int, cap: nat, k: Seq<char>)
    requires
        forward_shard_valid(s, index, cap),
    ensures
        forward_shard_valid(lru_store::lru_touch(s, k), index, cap),
        forward_shard_valid(lru_store::lru_without(s, k), index, cap),
        lru_store::lru_without(lru_store::lru_touch(s, k), k) == lru_store::lru_without(s, k),
{
    lru_store::lemma_without(s, k);
    lru_store::lemma_touch(s, k);
    lru_store::lemma_lookup(s, k);
    let w = lru_store::lru_without(s, k);
    let t = lru_store::lru_touch(s, k);
    assert forall|j: int| 0 <= j < w.len() implies shard_of(#[trigger] w[j].0) == index
        && text::ascii_lower(w[j].0) == w[j].0 by {
        assert(s.contains(w[j]));
        let m = choose|m: int| 0 <= m < s.len() && s[m] == w[j];
        assert(shard_of(s[m].0) == index);
    }
    if lru_store::lru_lookup(s, k) is Some {
        let v = lru_store::lru_lookup(s, k)->0;
        let m = choose|m: int| 0 <= m < s.len() && s[m] == (k, v);
        assert(shard_of(s[m].0) == index);
        assert forall|j: int| 0 <= j < t.len() implies shard_of(#[trigger] t[j].0) == index
            && text::ascii_lower(t[j].0) == t[j].0 by {
            if j > 0 {
                assert(t[j] == w[j - 1]);
            }
        }
        lru_store::lemma_without(w, k);
        assert(t.drop_first() =~= w);
    }
}

/// Using a key of a valid shard, or taking it out, keeps the shard valid.
proof fn lemma_reverse_reads(s: Seq<(IpKey, NameHolder)>, index: int, cap: nat, k: IpKey)
    requires
        reverse_shard_valid(s, index, cap),
    ensures
        reverse_shard_valid(lru_store::lru_touch(s, k), index, cap),
        reverse_shard_valid(lru_store::lru_without(s, k), index, cap),
        lru_store::lru_without(lru_store::lru_touch(s, k), k) == lru_store::lru_without(s, k),
{
    lru_store::lemma_without(s, k);
    lru_store::lemma_touch(s, k);
    lru_store::lemma_lookup(s, k);
    let w = lru_store::lru_without(s, k);
    let t = lru_store::lru_touch(s, k);
    assert forall|j: int| 0 <= j < w.len() implies shard_of_ip(ip_of_key(#[trigger] w[j].0))
        == index && key_of_ip(ip_of_key(w[j].0)) == w[j].0 by {
        assert(s.contains(w[j]));
        let m = choose|m: int| 0 <= m < s.len() && s[m] == w[j];
        assert(shard_of_ip(ip_of_key(s[m].0)) == index);
    }
    if lru_store::lru_lookup(s, k) is Some {
        let v = lru_store::lru_lookup(s, k)->0;
        let m = choose|m: int| 0 <= m < s.len() && s[m] == (k, v);
        assert(shard_of_ip(ip_of_key(s[m].0)) == index);
        assert forall|j: int| 0 <= j < t.len() implies shard_of_ip(ip_of_key(#[trigger] t[j].0))
            == index && key_of_ip(ip_of_key(t[j].0)) == t[j].0 by {
            if j > 0 {
                assert(t[j] == w[j - 1]);
            }
        }
        lru_store::lemma_without(w, k);
        assert(t.drop_first() =~= w);
    }
}

} // verus!
