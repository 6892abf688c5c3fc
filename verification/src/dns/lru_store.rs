//! Least-recently-used stores of the answer cache.
//!
//! The contents of a store are modelled as a sequence of key-value pairs, the
//! most recently used pair first.
use crate::clock::Instant;
use crate::dns::families::QueryFamilies;
use crate::net::IpAddr;
use vstd::prelude::*;

verus! {

/// One cached answer. Each family has its own expiry, which means something
/// only where `queried` holds that family.
#[derive(Debug)]
pub struct CacheEntry {
    pub ips: Vec<IpAddr>,
    pub expire_v4: Instant,
    pub expire_v6: Instant,
    pub source: Option<String>,
    pub queried: QueryFamilies,
}

/// The model of a [`CacheEntry`].
#[verifier::ext_equal]
pub struct Answer {
    pub ips: Seq<IpAddr>,
    pub expire_v4: Instant,
    pub expire_v6: Instant,
    pub source: Option<Seq<char>>,
    pub queried: QueryFamilies,
}

/// The characters of an optional string.
pub open spec fn text_of(s: Option<String>) -> Option<Seq<char>> {
    match s {
        Some(t) => Some(t@),
        None => None,
    }
}

impl View for CacheEntry {
    type V = Answer;

    open spec fn view(&self) -> Answer {
        Answer {
            ips: self.ips@,
            expire_v4: self.expire_v4,
            expire_v6: self.expire_v6,
            source: text_of(self.source),
            queried: self.queried,
        }
    }
}

/// One address-to-name mapping.
#[derive(Debug)]
pub struct ReverseEntry {
    pub domain: String,
    pub expire_at: Instant,
}

/// The model of a [`ReverseEntry`].
#[verifier::ext_equal]
pub struct NameHolder {
    pub domain: Seq<char>,
    pub expire_at: Instant,
}

impl View for ReverseEntry {
    type V = NameHolder;

    open spec fn view(&self) -> NameHolder {
        NameHolder { domain: self.domain@, expire_at: self.expire_at }
    }
}

/// The key of a reverse entry: the family (4 or 6) and the address bits.
pub type IpKey = (u8, u128);

/// A store of answers, keyed by domain.
pub type ForwardStore = lru::LruCache<String, CacheEntry>;

/// A store of address-to-name mappings.
pub type ReverseStore = lru::LruCache<IpKey, ReverseEntry>;

// ---------------------------------------------------------------------------
// The model of a store
// ---------------------------------------------------------------------------

/// The value kept under `k`.
pub open spec fn lru_lookup<K, V>(s: Seq<(K, V)>, k: K) -> Option<V>
    decreases s.len(),
{
    if s.len() == 0 {
        None
    } else if s[0].0 == k {
        Some(s[0].1)
    } else {
        lru_lookup(s.drop_first(), k)
    }
}

/// The pairs whose key is not `k`, in their order.
pub open spec fn lru_without<K, V>(s: Seq<(K, V)>, k: K) -> Seq<(K, V)>
    decreases s.len(),
{
    if s.len() == 0 {
        s
    } else if s[0].0 == k {
        lru_without(s.drop_first(), k)
    } else {
        seq![s[0]] + lru_without(s.drop_first(), k)
    }
}

/// The pairs after `k` was used: its pair comes first.
pub open spec fn lru_touch<K, V>(s: Seq<(K, V)>, k: K) -> Seq<(K, V)> {
    match lru_lookup(s, k) {
        Some(v) => seq![(k, v)] + lru_without(s, k),
        None => s,
    }
}

/// The pairs after the least recently used one was taken out.
pub open spec fn lru_drop_oldest<K, V>(s: Seq<(K, V)>) -> Seq<(K, V)> {
    if s.len() == 0 {
        s
    } else {
        s.drop_last()
    }
}

/// The pairs after `v` was put under `k` in a store that holds at most `cap`
/// pairs: a new key in a full store takes the place of the oldest pair.
pub open spec fn lru_put<K, V>(s: Seq<(K, V)>, cap: nat, k: K, v: V) -> Seq<(K, V)> {
    if lru_lookup(s, k) is None && s.len() == cap {
        seq![(k, v)] + lru_drop_oldest(s)
    } else {
        seq![(k, v)] + lru_without(s, k)
    }
}

/// No key occurs twice.
pub open spec fn lru_distinct<K, V>(s: Seq<(K, V)>) -> bool {
    forall|i: int, j: int| 0 <= i < j < s.len() ==> s[i].0 != s[j].0
}

/// What taking a key out leaves.
pub proof fn lemma_without<K, V>(s: Seq<(K, V)>, k: K)
    ensures
        lru_without(s, k).len() <= s.len(),
        lru_lookup(lru_without(s, k), k) is None,
        forall|q: K| q != k ==> #[trigger] lru_lookup(lru_without(s, k), q) == lru_lookup(s, q),
        forall|i: int|
            0 <= i < lru_without(s, k).len() ==> #[trigger] lru_without(s, k)[i].0 != k
                && s.contains(lru_without(s, k)[i]),
        lru_distinct(s) ==> lru_distinct(lru_without(s, k)),
        lru_lookup(s, k) is None ==> lru_without(s, k) == s,
        lru_lookup(s, k) is Some ==> lru_without(s, k).len() < s.len(),
    decreases s.len(),
{
    if s.len() > 0 {
        let rest = s.drop_first();
        lemma_without(rest, k);
        let out = lru_without(rest, k);
        assert(s =~= seq![s[0]] + rest);
        assert forall|p: (K, V)| rest.contains(p) implies s.contains(p) by {
            let i = choose|i: int| 0 <= i < rest.len() && rest[i] == p;
            assert(s[i + 1] == p);
        }
        if s[0].0 == k {
            assert(lru_without(s, k) == out);
        } else {
            let full = seq![s[0]] + out;
            assert(lru_without(s, k) == full);
            assert(full.drop_first() =~= out);
            assert forall|q: K| q != k implies #[trigger] lru_lookup(lru_without(s, k), q)
                == lru_lookup(s, q) by {
                assert(lru_lookup(out, q) == lru_lookup(rest, q));
            }
            assert(s.contains(s[0]));
            assert forall|i: int| 0 <= i < full.len() implies #[trigger] full[i].0 != k
                && s.contains(full[i]) by {
                if i > 0 {
                    assert(full[i] == out[i - 1]);
                }
            }
            if lru_distinct(s) {
                assert(lru_distinct(rest));
                assert forall|i: int, j: int| 0 <= i < j < full.len() implies full[i].0
                    != full[j].0 by {
                    assert(full[j] == out[j - 1]);
                    if i == 0 {
                        assert(rest.contains(out[j - 1]));
                        let m = choose|m: int| 0 <= m < rest.len() && rest[m] == out[j - 1];
                        assert(s[m + 1] == out[j - 1]);
                    } else {
                        assert(full[i] == out[i - 1]);
                    }
                }
            }
        }
    }
}

/// A lookup finds a pair of the sequence, and with distinct keys it finds
/// every pair.
pub proof fn lemma_lookup<K, V>(s: Seq<(K, V)>, k: K)
    ensures
        lru_lookup(s, k) matches Some(v) ==> s.contains((k, v)),
        lru_lookup(s, k) is None ==> forall|i: int| 0 <= i < s.len() ==> #[trigger] s[i].0 != k,
        lru_distinct(s) ==> forall|i: int|
            0 <= i < s.len() && #[trigger] s[i].0 == k ==> lru_lookup(s, k) == Some(s[i].1),
    decreases s.len(),
{
    if s.len() > 0 {
        let rest = s.drop_first();
        lemma_lookup(rest, k);
        assert(s =~= seq![s[0]] + rest);
        if s[0].0 == k {
            assert(s.contains(s[0]));
        } else {
            if lru_lookup(rest, k) is Some {
                let v = lru_lookup(rest, k)->0;
                let i = choose|i: int| 0 <= i < rest.len() && rest[i] == (k, v);
                assert(s[i + 1] == (k, v));
            }
            assert forall|i: int| 0 <= i < s.len() && #[trigger] s[i].0 == k implies lru_lookup(
                rest,
                k,
            ) is Some && (lru_distinct(s) ==> lru_lookup(s, k) == Some(s[i].1)) by {
                assert(rest[i - 1] == s[i]);
                if lru_distinct(s) {
                    assert(lru_distinct(rest));
                }
            }
        }
    }
}

/// A put pair is found again, no other key changes its value except the one
/// whose pair a full store gives up, and keys stay distinct.
pub proof fn lemma_put<K, V>(s: Seq<(K, V)>, cap: nat, k: K, v: V)
    requires
        lru_distinct(s),
        s.len() < cap,
    ensures
        lru_put(s, cap, k, v) == seq![(k, v)] + lru_without(s, k),
        lru_lookup(lru_put(s, cap, k, v), k) == Some(v),
        forall|q: K| q != k ==> #[trigger] lru_lookup(lru_put(s, cap, k, v), q) == lru_lookup(s, q),
        lru_distinct(lru_put(s, cap, k, v)),
        lru_put(s, cap, k, v).len() <= s.len() + 1,
{
    lemma_without(s, k);
    let out = lru_put(s, cap, k, v);
    assert(out.drop_first() =~= lru_without(s, k));
    assert forall|q: K| q != k implies #[trigger] lru_lookup(out, q) == lru_lookup(s, q) by {
        assert(lru_lookup(lru_without(s, k), q) == lru_lookup(s, q));
    }
    assert forall|i: int, j: int| 0 <= i < j < out.len() implies out[i].0 != out[j].0 by {
        assert(out[j] == lru_without(s, k)[j - 1]);
        if i > 0 {
            assert(out[i] == lru_without(s, k)[i - 1]);
        }
    }
}

/// Using a key keeps every value and the distinctness of keys.
pub proof fn lemma_touch<K, V>(s: Seq<(K, V)>, k: K)
    requires
        lru_distinct(s),
    ensures
        forall|q: K| #[trigger] lru_lookup(lru_touch(s, k), q) == lru_lookup(s, q),
        lru_distinct(lru_touch(s, k)),
        lru_touch(s, k).len() <= s.len(),
{
    lemma_without(s, k);
    if lru_lookup(s, k) is Some {
        let v = lru_lookup(s, k)->0;
        lemma_put(s, s.len() + 1, k, v);
        assert(lru_touch(s, k) == lru_put(s, s.len() + 1, k, v));
        assert forall|q: K| #[trigger] lru_lookup(lru_touch(s, k), q) == lru_lookup(s, q) by {
            if q != k {
                assert(lru_lookup(lru_put(s, s.len() + 1, k, v), q) == lru_lookup(s, q));
            }
        }
    }
}

/// Taking the oldest pair out keeps every other value and the distinctness of
/// keys.
pub proof fn lemma_drop_oldest<K, V>(s: Seq<(K, V)>, k: K)
    requires
        lru_distinct(s),
        s.len() > 0,
    ensures
        lru_distinct(lru_drop_oldest(s)),
        s.last().0 != k ==> lru_lookup(lru_drop_oldest(s), k) == lru_lookup(s, k),
        s.last().0 == k ==> lru_lookup(lru_drop_oldest(s), k) is None,
    decreases s.len(),
{
    let rest = s.drop_first();
    if rest.len() > 0 {
        assert(lru_distinct(rest));
        lemma_drop_oldest(rest, k);
        assert(s.drop_last().drop_first() =~= rest.drop_last());
        assert(rest.last() == s.last());
        assert(s[0].0 != s[s.len() - 1].0);
    } else {
        assert(lru_lookup(rest, k) is None);
        assert(lru_lookup(s.drop_last(), k) is None);
    }
}

/// The pairs after each of some keys was taken out, in order.
pub open spec fn lru_without_all<K, V>(s: Seq<(K, V)>, keys: Seq<K>) -> Seq<(K, V)>
    decreases keys.len(),
{
    if keys.len() == 0 {
        s
    } else {
        lru_without(lru_without_all(s, keys.drop_last()), keys.last())
    }
}

/// Filtering twice is filtering by both conditions.
proof fn lemma_filter_twice<A>(
    s: Seq<A>,
    p: spec_fn(A) -> bool,
    q: spec_fn(A) -> bool,
    both: spec_fn(A) -> bool,
)
    requires
        forall|i: int| 0 <= i < s.len() ==> (#[trigger] both(s[i]) <==> p(s[i]) && q(s[i])),
    ensures
        s.filter(p).filter(q) == s.filter(both),
    decreases s.len(),
{
    reveal(Seq::filter);
    if s.len() > 0 {
        let head = s.drop_last();
        assert forall|i: int| 0 <= i < head.len() implies (#[trigger] both(head[i]) <==> p(head[i])
            && q(head[i])) by {
            assert(head[i] == s[i]);
        }
        lemma_filter_twice(head, p, q, both);
        let last = s.last();
        assert(both(s[s.len() - 1]) <==> p(last) && q(last));
        if p(last) {
            assert(head.filter(p).push(last).drop_last() =~= head.filter(p));
        }
    }
}

/// Taking a key out is filtering by the key.
proof fn lemma_without_filter<K, V>(s: Seq<(K, V)>, k: K)
    ensures
        lru_without(s, k) == s.filter(|p: (K, V)| p.0 != k),
    decreases s.len(),
{
    let keep = |p: (K, V)| p.0 != k;
    if s.len() == 0 {
        reveal(Seq::filter);
        assert(s.filter(keep) =~= s);
    } else {
        let rest = s.drop_first();
        lemma_without_filter(rest, k);
        assert(s =~= seq![s[0]] + rest);
        Seq::filter_distributes_over_add(seq![s[0]], rest, keep);
        assert(seq![s[0]].filter(keep) =~= if keep(s[0]) {
            seq![s[0]]
        } else {
            Seq::empty()
        }) by {
            reveal_with_fuel(Seq::filter, 2);
            assert(seq![s[0]].drop_last() =~= Seq::<(K, V)>::empty());
        }
        assert(Seq::<(K, V)>::empty() + rest.filter(keep) =~= rest.filter(keep));
    }
}

proof fn lemma_without_all_filter<K, V>(s: Seq<(K, V)>, keys: Seq<K>)
    ensures
        lru_without_all(s, keys) == s.filter(|p: (K, V)| !keys.contains(p.0)),
    decreases keys.len(),
{
    let keep = |p: (K, V)| !keys.contains(p.0);
    if keys.len() == 0 {
        lemma_filter_all(s, keep);
    } else {
        let head = keys.drop_last();
        lemma_without_all_filter(s, head);
        let p1 = |p: (K, V)| !head.contains(p.0);
        let p2 = |p: (K, V)| p.0 != keys.last();
        lemma_without_filter(s.filter(p1), keys.last());
        assert forall|i: int| 0 <= i < s.len() implies (#[trigger] keep(s[i]) <==> p1(s[i]) && p2(
            s[i],
        )) by {
            let k = s[i].0;
            if head.contains(k) {
                let m = choose|m: int| 0 <= m < head.len() && head[m] == k;
                assert(keys[m] == k);
            }
            if keys.contains(k) && k != keys.last() {
                let m = choose|m: int| 0 <= m < keys.len() && keys[m] == k;
                assert(head[m] == k);
            }
            if k == keys.last() {
                assert(keys[keys.len() - 1] == k);
            }
        }
        lemma_filter_twice(s, p1, p2, keep);
    }
}

/// Filtering by a condition that every element meets changes nothing.
proof fn lemma_filter_all<A>(s: Seq<A>, p: spec_fn(A) -> bool)
    requires
        forall|i: int| 0 <= i < s.len() ==> #[trigger] p(s[i]),
    ensures
        s.filter(p) == s,
    decreases s.len(),
{
    reveal(Seq::filter);
    if s.len() > 0 {
        assert forall|i: int| 0 <= i < s.drop_last().len() implies #[trigger] p(s.drop_last()[i]) by {
            assert(p(s[i]));
        }
        lemma_filter_all(s.drop_last(), p);
        assert(p(s[s.len() - 1]));
        assert(s.drop_last().push(s.last()) =~= s);
    }
}

/// Taking out the keys of exactly the pairs that fail a condition filters by
/// that condition.
pub proof fn lemma_without_all<K, V>(s: Seq<(K, V)>, keys: Seq<K>, keep: spec_fn((K, V)) -> bool)
    requires
        forall|i: int| 0 <= i < s.len() ==> (#[trigger] keep(s[i]) <==> !keys.contains(s[i].0)),
    ensures
        lru_without_all(s, keys) == s.filter(keep),
{
    lemma_without_all_filter(s, keys);
    let other = |p: (K, V)| !keys.contains(p.0);
    lemma_filter_twice(s, keep, |p: (K, V)| true, keep);
    lemma_filter_all(s.filter(keep), |p: (K, V)| true);
    lemma_filter_twice(s, other, |p: (K, V)| true, keep);
    lemma_filter_all(s.filter(other), |p: (K, V)| true);
}

// ---------------------------------------------------------------------------
// The `lru` crate
// ---------------------------------------------------------------------------

/// `lru::LruCache`, opaque here.
#[verifier::external_type_specification]
#[verifier::external_body]
#[verifier::reject_recursive_types(K)]
#[verifier::reject_recursive_types(V)]
#[verifier::reject_recursive_types(S)]
pub struct ExLruCache<K, V, S>(lru::LruCache<K, V, S>);

/// The hasher of an `lru::LruCache`, opaque here.
#[verifier::external_type_specification]
#[verifier::external_body]
pub struct ExDefaultHasher(lru::DefaultHasher);

/// The pairs of a forward store, most recently used first.
pub uninterp spec fn forward_pairs(store: ForwardStore) -> Seq<(Seq<char>, Answer)>;

/// The most pairs that a forward store may hold.
pub uninterp spec fn forward_cap(store: ForwardStore) -> nat;

/// `LruCache::unbounded` builds an empty store whose limit is `usize::MAX`.
#[verifier::external_body]
pub(crate) fn forward_new() -> (store: ForwardStore)
    ensures
        forward_pairs(store) == Seq::<(Seq<char>, Answer)>::empty(),
        forward_cap(store) == usize::MAX,
{
    lru::LruCache::unbounded()
}

/// `LruCache::len` counts the pairs.
#[verifier::external_body]
pub(crate) fn forward_len(store: &ForwardStore) -> (n: usize)
    ensures
        n == forward_pairs(*store).len(),
{
    store.len()
}

/// `LruCache::get` hands out the value kept under the key and makes its pair
/// the most recently used one.
#[verifier::external_body]
pub(crate) fn forward_get<'a>(store: &'a mut ForwardStore, key: &str) -> (value: Option<
    &'a CacheEntry,
>)
    ensures
        forward_pairs(*final(store)) == lru_touch(forward_pairs(*old(store)), key@),
        forward_cap(*final(store)) == forward_cap(*old(store)),
        match value {
            Some(entry) => lru_lookup(forward_pairs(*old(store)), key@) == Some(entry@),
            None => lru_lookup(forward_pairs(*old(store)), key@) is None,
        },
{
    store.get(key)
}

/// `LruCache::put` keeps the value under the key as the most recently used
/// pair; a new key in a full store takes the place of the oldest pair.
#[verifier::external_body]
pub(crate) fn forward_put(store: &mut ForwardStore, key: String, value: CacheEntry)
    ensures
        forward_pairs(*final(store)) == lru_put(
            forward_pairs(*old(store)),
            forward_cap(*old(store)),
            key@,
            value@,
        ),
        forward_cap(*final(store)) == forward_cap(*old(store)),
{
    store.put(key, value);
}

/// `LruCache::pop` takes the pair of the key out.
#[verifier::external_body]
pub(crate) fn forward_pop(store: &mut ForwardStore, key: &str)
    ensures
        forward_pairs(*final(store)) == lru_without(forward_pairs(*old(store)), key@),
        forward_cap(*final(store)) == forward_cap(*old(store)),
{
    store.pop(key);
}

/// `LruCache::pop_lru` takes the least recently used pair out.
#[verifier::external_body]
pub(crate) fn forward_pop_lru(store: &mut ForwardStore)
    ensures
        forward_pairs(*final(store)) == lru_drop_oldest(forward_pairs(*old(store))),
        forward_cap(*final(store)) == forward_cap(*old(store)),
{
    store.pop_lru();
}

/// `LruCache::clear` takes every pair out.
#[verifier::external_body]
pub(crate) fn forward_clear(store: &mut ForwardStore)
    ensures
        forward_pairs(*final(store)) == Seq::<(Seq<char>, Answer)>::empty(),
        forward_cap(*final(store)) == forward_cap(*old(store)),
{
    store.clear();
}

/// `LruCache::iter` visits the pairs, most recently used first.
#[verifier::external_body]
pub(crate) fn forward_items(store: &ForwardStore) -> (items: Vec<(&String, &CacheEntry)>)
    ensures
        items@.len() == forward_pairs(*store).len(),
        forall|i: int|
            0 <= i < items@.len() ==> (#[trigger] items@[i]).0@ == forward_pairs(*store)[i].0
                && items@[i].1@ == forward_pairs(*store)[i].1,
{
    store.iter().collect()
}

/// The pairs of a reverse store, most recently used first.
pub uninterp spec fn reverse_pairs(store: ReverseStore) -> Seq<(IpKey, NameHolder)>;

/// The most pairs that a reverse store may hold.
pub uninterp spec fn reverse_cap(store: ReverseStore) -> nat;

/// `LruCache::unbounded` builds an empty store whose limit is `usize::MAX`.
#[verifier::external_body]
pub(crate) fn reverse_new() -> (store: ReverseStore)
    ensures
        reverse_pairs(store) == Seq::<(IpKey, NameHolder)>::empty(),
        reverse_cap(store) == usize::MAX,
{
    lru::LruCache::unbounded()
}

/// `LruCache::len` counts the pairs.
#[verifier::external_body]
pub(crate) fn reverse_len(store: &ReverseStore) -> (n: usize)
    ensures
        n == reverse_pairs(*store).len(),
{
    store.len()
}

/// `LruCache::get` hands out the value kept under the key and makes its pair
/// the most recently used one.
#[verifier::external_body]
pub(crate) fn reverse_get<'a>(store: &'a mut ReverseStore, key: &IpKey) -> (value: Option<
    &'a ReverseEntry,
>)
    ensures
        reverse_pairs(*final(store)) == lru_touch(reverse_pairs(*old(store)), *key),
        reverse_cap(*final(store)) == reverse_cap(*old(store)),
        match value {
            Some(entry) => lru_lookup(reverse_pairs(*old(store)), *key) == Some(entry@),
            None => lru_lookup(reverse_pairs(*old(store)), *key) is None,
        },
{
    store.get(key)
}

/// `LruCache::put` keeps the value under the key as the most recently used
/// pair; a new key in a full store takes the place of the oldest pair.
#[verifier::external_body]
pub(crate) fn reverse_put(store: &mut ReverseStore, key: IpKey, value: ReverseEntry)
    ensures
        reverse_pairs(*final(store)) == lru_put(
            reverse_pairs(*old(store)),
            reverse_cap(*old(store)),
            key,
            value@,
        ),
        reverse_cap(*final(store)) == reverse_cap(*old(store)),
{
    store.put(key, value);
}

/// `LruCache::pop` takes the pair of the key out.
#[verifier::external_body]
pub(crate) fn reverse_pop(store: &mut ReverseStore, key: &IpKey)
    ensures
        reverse_pairs(*final(store)) == lru_without(reverse_pairs(*old(store)), *key),
        reverse_cap(*final(store)) == reverse_cap(*old(store)),
{
    store.pop(key);
}

/// `LruCache::pop_lru` takes the least recently used pair out.
#[verifier::external_body]
pub(crate) fn reverse_pop_lru(store: &mut ReverseStore)
    ensures
        reverse_pairs(*final(store)) == lru_drop_oldest(reverse_pairs(*old(store))),
        reverse_cap(*final(store)) == reverse_cap(*old(store)),
{
    store.pop_lru();
}

/// `LruCache::clear` takes every pair out.
#[verifier::external_body]
pub(crate) fn reverse_clear(store: &mut ReverseStore)
    ensures
        reverse_pairs(*final(store)) == Seq::<(IpKey, NameHolder)>::empty(),
        reverse_cap(*final(store)) == reverse_cap(*old(store)),
{
    store.clear();
}

/// `LruCache::iter` visits the pairs, most recently used first.
#[verifier::external_body]
pub(crate) fn reverse_items(store: &ReverseStore) -> (items: Vec<(&IpKey, &ReverseEntry)>)
    ensures
        items@.len() == reverse_pairs(*store).len(),
        forall|i: int|
            0 <= i < items@.len() ==> *(#[trigger] items@[i]).0 == reverse_pairs(*store)[i].0
                && items@[i].1@ == reverse_pairs(*store)[i].1,
{
    store.iter().collect()
}

} // verus!
