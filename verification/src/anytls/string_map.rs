//! A small map from text to text, and its form as lines of `key=value`.
use crate::octets;
use crate::text;
use vstd::prelude::*;

verus! {

/// A key with its value.
pub type Pair = (Seq<char>, Seq<char>);

/// The map that some pairs make; a later pair replaces an earlier one.
pub open spec fn map_of(pairs: Seq<Pair>) -> Map<Seq<char>, Seq<char>>
    decreases pairs.len(),
{
    if pairs.len() == 0 {
        Map::empty()
    } else {
        map_of(pairs.drop_last()).insert(pairs.last().0, pairs.last().1)
    }
}

/// No key occurs twice.
pub open spec fn distinct_keys(pairs: Seq<Pair>) -> bool {
    forall|i: int, j: int| 0 <= i < j < pairs.len() ==> pairs[i].0 != pairs[j].0
}

/// What the map of some pairs holds.
proof fn lemma_map_of(pairs: Seq<Pair>)
    ensures
        map_of(pairs).dom().finite(),
        forall|k: Seq<char>|
            #[trigger] map_of(pairs).dom().contains(k) ==> exists|i: int|
                0 <= i < pairs.len() && #[trigger] pairs[i].0 == k,
        forall|i: int|
            0 <= i < pairs.len() ==> map_of(pairs).dom().contains(#[trigger] pairs[i].0),
        distinct_keys(pairs) ==> forall|i: int|
            0 <= i < pairs.len() ==> map_of(pairs)[#[trigger] pairs[i].0] == pairs[i].1,
        distinct_keys(pairs) ==> map_of(pairs).dom().len() == pairs.len(),
    decreases pairs.len(),
{
    if pairs.len() > 0 {
        let head = pairs.drop_last();
        let last = pairs.last();
        lemma_map_of(head);
        let m = map_of(head);
        assert forall|k: Seq<char>| #[trigger] map_of(pairs).dom().contains(k) implies exists|
            i: int,
        |
            0 <= i < pairs.len() && #[trigger] pairs[i].0 == k by {
            if k == last.0 {
                assert(pairs[pairs.len() - 1].0 == k);
            } else {
                assert(m.dom().contains(k));
                let i = choose|i: int| 0 <= i < head.len() && #[trigger] head[i].0 == k;
                assert(pairs[i].0 == k);
            }
        }
        assert forall|i: int| 0 <= i < pairs.len() implies map_of(pairs).dom().contains(
            #[trigger] pairs[i].0,
        ) by {
            if i < head.len() {
                assert(head[i] == pairs[i]);
            }
        }
        if distinct_keys(pairs) {
            assert(distinct_keys(head));
            assert forall|i: int| 0 <= i < pairs.len() implies map_of(pairs)[#[trigger] pairs[i].0]
                == pairs[i].1 by {
                if i < head.len() {
                    assert(head[i] == pairs[i]);
                    assert(pairs[i].0 != pairs[pairs.len() - 1].0);
                }
            }
            assert(!m.dom().contains(last.0)) by {
                if m.dom().contains(last.0) {
                    let i = choose|i: int| 0 <= i < head.len() && #[trigger] head[i].0 == last.0;
                    assert(pairs[i].0 == pairs[pairs.len() - 1].0);
                }
            }
            assert(map_of(pairs).dom() =~= m.dom().insert(last.0));
        }
    }
}

/// The map after one pair was replaced by another value for its key.
proof fn lemma_map_update(pairs: Seq<Pair>, i: int, v: Seq<char>)
    requires
        distinct_keys(pairs),
        0 <= i < pairs.len(),
    ensures
        distinct_keys(pairs.update(i, (pairs[i].0, v))),
        map_of(pairs.update(i, (pairs[i].0, v))) == map_of(pairs).insert(pairs[i].0, v),
{
    let new = pairs.update(i, (pairs[i].0, v));
    lemma_map_of(pairs);
    assert(distinct_keys(new)) by {
        assert forall|a: int, b: int| 0 <= a < b < new.len() implies new[a].0 != new[b].0 by {
            assert(pairs[a].0 != pairs[b].0);
        }
    }
    lemma_map_of(new);
    let target = map_of(pairs).insert(pairs[i].0, v);
    assert(map_of(new).dom() =~= target.dom()) by {
        assert forall|k: Seq<char>| map_of(new).dom().contains(k) <==> target.dom().contains(k) by {
            if map_of(new).dom().contains(k) {
                let a = choose|a: int| 0 <= a < new.len() && #[trigger] new[a].0 == k;
                assert(pairs[a].0 == k);
                assert(map_of(pairs).dom().contains(pairs[a].0));
            }
            if target.dom().contains(k) {
                if k == pairs[i].0 {
                    assert(new[i].0 == k);
                    assert(map_of(new).dom().contains(new[i].0));
                } else {
                    let a = choose|a: int| 0 <= a < pairs.len() && #[trigger] pairs[a].0 == k;
                    assert(new[a].0 == k);
                    assert(map_of(new).dom().contains(new[a].0));
                }
            }
        }
    }
    assert forall|k: Seq<char>| map_of(new).dom().contains(k) implies map_of(new)[k]
        == target[k] by {
        let a = choose|a: int| 0 <= a < new.len() && #[trigger] new[a].0 == k;
        assert(map_of(new)[new[a].0] == new[a].1);
        if k != pairs[i].0 {
            assert(map_of(pairs)[pairs[a].0] == pairs[a].1);
        } else {
            assert(a == i) by {
                if a < i {
                    assert(pairs[a].0 != pairs[i].0);
                } else if a > i {
                    assert(pairs[i].0 != pairs[a].0);
                }
            }
        }
    }
    assert(map_of(new) =~= target);
}

/// A key with its value, as the map stores them.
pub open spec fn stored(entries: Seq<(String, String)>) -> Seq<Pair> {
    entries.map_values(|e: (String, String)| (e.0@, e.1@))
}

/// A map of protocol settings.
#[derive(Debug)]
pub struct StringMap {
    entries: Vec<(String, String)>,
}

impl View for StringMap {
    type V = Map<Seq<char>, Seq<char>>;

    closed spec fn view(&self) -> Map<Seq<char>, Seq<char>> {
        map_of(stored(self.entries@))
    }
}

/// The line of a pair.
pub open spec fn line_of(p: Pair) -> Seq<char> {
    p.0 + seq!['='] + p.1
}

/// The lines of some pairs, with line feeds between them.
pub open spec fn lines_text(pairs: Seq<Pair>) -> Seq<char>
    decreases pairs.len(),
{
    if pairs.len() == 0 {
        Seq::empty()
    } else if pairs.len() == 1 {
        line_of(pairs[0])
    } else {
        line_of(pairs[0]) + seq!['\n'] + lines_text(pairs.drop_first())
    }
}

/// The pairs that some lines write: a line with an equals sign is a pair of
/// what stands before and behind the first one, without the white space
/// around; any other line is skipped.
pub open spec fn pairs_of(lines: Seq<Seq<char>>) -> Seq<Pair>
    decreases lines.len(),
{
    if lines.len() == 0 {
        Seq::empty()
    } else {
        let before = pairs_of(lines.drop_last());
        match text::split_once_of(lines.last(), '=') {
            Some(p) => before.push((text::trim_of(p.0), text::trim_of(p.1))),
            None => before,
        }
    }
}

impl StringMap {
    /// The pairs, in the order in which they are written.
    pub closed spec fn pairs(&self) -> Seq<Pair> {
        stored(self.entries@)
    }

    /// No key occurs twice, and the map is the one that the pairs make.
    pub open spec fn wf(&self) -> bool {
        &&& distinct_keys(self.pairs())
        &&& self@ == map_of(self.pairs())
        &&& self@.dom().finite()
    }

    /// An empty map.
    pub fn new() -> (m: Self)
        ensures
            m.wf(),
            m@ == Map::<Seq<char>, Seq<char>>::empty(),
            m.pairs().len() == 0,
    {
        let m = StringMap { entries: Vec::new() };
        assert(m.pairs() =~= Seq::empty());
        m
    }

    /// An empty map with room for some pairs.
    pub fn with_capacity(capacity: usize) -> (m: Self)
        ensures
            m.wf(),
            m@ == Map::<Seq<char>, Seq<char>>::empty(),
            m.pairs().len() == 0,
    {
        let m = StringMap { entries: Vec::with_capacity(capacity) };
        assert(m.pairs() =~= Seq::empty());
        m
    }

    /// A copy.
    pub fn copy(&self) -> (m: Self)
        requires
            self.wf(),
        ensures
            m.wf(),
            m@ == self@,
    {
        let ghost all = self.pairs();
        let mut m = StringMap { entries: Vec::new() };
        let mut i: usize = 0;
        while i < self.entries.len()
            invariant
                i <= self.entries@.len(),
                all == self.pairs(),
                m.pairs() =~= all.take(i as int),
            decreases self.entries@.len() - i,
        {
            let pair = (self.entries[i].0.as_str().to_owned(), self.entries[i].1.as_str().to_owned());
            m.entries.push(pair);
            assert(m.pairs() =~= all.take(i as int).push(all[i as int]));
            i += 1;
        }
        assert(m.pairs() =~= all);
        m
    }

    /// Where a key is kept.
    fn find(&self, key: &str) -> (at: Option<usize>)
        ensures
            match at {
                Some(i) => i < self.entries@.len() && self.entries@[i as int].0@ == key@,
                None => forall|i: int|
                    0 <= i < self.entries@.len() ==> (#[trigger] self.entries@[i]).0@ != key@,
            },
    {
        let mut i: usize = 0;
        while i < self.entries.len()
            invariant
                i <= self.entries@.len(),
                forall|j: int| 0 <= j < i ==> (#[trigger] self.entries@[j]).0@ != key@,
            decreases self.entries@.len() - i,
        {
            if text::same(self.entries[i].0.as_str(), key) {
                return Some(i);
            }
            i += 1;
        }
        None
    }

    /// Keeps a value under a key; a value that the key had is replaced.
    pub fn insert(&mut self, key: &str, value: &str)
        requires
            old(self).wf(),
        ensures
            final(self).wf(),
            final(self)@ == old(self)@.insert(key@, value@),
    {
        let ghost before = self.pairs();
        match self.find(key) {
            Some(i) => {
                proof {
                    lemma_map_update(before, i as int, value@);
                }
                self.entries[i] = (key.to_owned(), value.to_owned());
                assert(self.pairs() =~= before.update(i as int, (before[i as int].0, value@)));
            },
            None => {
                self.entries.push((key.to_owned(), value.to_owned()));
                assert(self.pairs() =~= before.push((key@, value@)));
                proof {
                    assert(self.pairs().drop_last() =~= before);
                    assert forall|a: int, b: int|
                        0 <= a < b < self.pairs().len() implies self.pairs()[a].0
                        != self.pairs()[b].0 by {
                        if b == before.len() {
                            assert(old(self).entries@[a].0@ != key@);
                        } else {
                            assert(before[a].0 != before[b].0);
                        }
                    }
                }
            },
        }
    }

    /// The value of a key.
    pub fn get(&self, key: &str) -> (out: Option<&String>)
        requires
            self.wf(),
        ensures
            match out {
                Some(v) => self@.dom().contains(key@) && self@[key@] == v@,
                None => !self@.dom().contains(key@),
            },
    {
        proof {
            lemma_map_of(self.pairs());
        }
        match self.find(key) {
            Some(i) => {
                assert(self.pairs()[i as int].0 == key@);
                Some(&self.entries[i].1)
            },
            None => {
                proof {
                    if self@.dom().contains(key@) {
                        let i = choose|i: int|
                            0 <= i < self.pairs().len() && #[trigger] self.pairs()[i].0 == key@;
                        assert(self.entries@[i].0@ == key@);
                    }
                }
                None
            },
        }
    }

    /// Whether a key has a value.
    pub fn contains_key(&self, key: &str) -> (b: bool)
        requires
            self.wf(),
        ensures
            b == self@.dom().contains(key@),
    {
        self.get(key).is_some()
    }

    /// The number of keys.
    pub fn len(&self) -> (n: usize)
        requires
            self.wf(),
        ensures
            n == self@.dom().len(),
    {
        proof {
            lemma_map_of(self.pairs());
        }
        self.entries.len()
    }

    /// Whether the map is empty.
    pub fn is_empty(&self) -> (b: bool)
        requires
            self.wf(),
        ensures
            b == (self@ == Map::<Seq<char>, Seq<char>>::empty()),
    {
        proof {
            lemma_map_of(self.pairs());
            if self.entries@.len() == 0 {
                assert(self.pairs() =~= Seq::empty());
            } else {
                assert(self@.dom().contains(self.pairs()[0].0));
            }
        }
        self.entries.len() == 0
    }

    /// The map as bytes: a line `key=value` for each pair.
    pub fn to_bytes(&self) -> (out: Vec<u8>)
        ensures
            out@ == vstd::utf8::encode_utf8(lines_text(self.pairs())),
    {
        let ghost all = self.pairs();
        let mut out = String::new();
        let mut i: usize = self.entries.len();
        let n: usize = self.entries.len();
        assert(all.skip(n as int) =~= Seq::empty());
        while i > 0
            invariant
                i <= n,
                n == self.entries@.len(),
                all == stored(self.entries@),
                out@ == lines_text(all.skip(i as int)),
            decreases i,
        {
            let e = &self.entries[i - 1];
            let mut line = String::new();
            text::push_text(&mut line, e.0.as_str());
            line.push('=');
            text::push_text(&mut line, e.1.as_str());
            let ghost rest = all.skip(i - 1);
            assert(line@ =~= line_of(rest[0]));
            assert(rest.drop_first() =~= all.skip(i as int));
            if i < n {
                line.push('\n');
                text::push_text(&mut line, out.as_str());
                assert(line@ =~= line_of(rest[0]) + seq!['\n'] + lines_text(rest.drop_first()));
            }
            out = line;
            i -= 1;
        }
        assert(all.skip(0) =~= all);
        octets::of_text(out.as_str())
    }

    /// The map that some bytes write: a line `key=value` for each pair, the
    /// white space around key and value left out. Other lines are skipped, and
    /// a later line replaces an earlier one.
    pub fn from_bytes(data: &[u8]) -> (m: Self)
        ensures
            m.wf(),
            m@ == map_of(pairs_of(text::lines_of(text::lossy_text(data@)))),
            vstd::utf8::valid_utf8(data@) ==> m@ == map_of(
                pairs_of(text::lines_of(vstd::utf8::decode_utf8(data@))),
            ),
    {
        let content = text::from_utf8_lossy(data);
        let lines = text::lines(content.as_str());
        let ghost all = text::texts(lines@);
        let mut m = StringMap::new();
        let mut i: usize = 0;
        assert(all.take(0) =~= Seq::empty());
        while i < lines.len()
            invariant
                i <= lines@.len(),
                all == text::texts(lines@),
                m.wf(),
                m@ == map_of(pairs_of(all.take(i as int))),
            decreases lines@.len() - i,
        {
            let ghost done = pairs_of(all.take(i as int));
            assert(all.take(i + 1).drop_last() =~= all.take(i as int));
            assert(all.take(i + 1).last() == lines@[i as int]@);
            if let Some((k, v)) = text::split_once(lines[i].as_str(), '=') {
                let key = text::trim(k.as_str());
                let value = text::trim(v.as_str());
                assert(done.push((key@, value@)).drop_last() =~= done);
                m.insert(key.as_str(), value.as_str());
            }
            i += 1;
        }
        assert(all.take(i as int) =~= all);
        m
    }

    /// The pairs of the map.
    pub fn into_vec(self) -> (out: Vec<(String, String)>)
        ensures
            stored(out@) == self.pairs(),
    {
        self.entries
    }
}

/// A value that was inserted is found under its key, every other key keeps what
/// it had, and the number of keys grows by one exactly where the key is new.
pub proof fn law_insert(before: StringMap, after: StringMap, key: Seq<char>, value: Seq<char>)
    requires
        before.wf(),
        after.wf(),
        after@ == before@.insert(key, value),
    ensures
        after@.dom().contains(key) && after@[key] == value,
        forall|k: Seq<char>|
            k != key ==> (#[trigger] after@.dom().contains(k)) == before@.dom().contains(k)
                && after@[k] == before@[k],
        after@.dom().len() == before@.dom().len() + (if before@.dom().contains(key) {
            0int
        } else {
            1
        }),
{
    assert(after@.dom() =~= before@.dom().insert(key));
}

/// A pair that its line can carry: the key has no equals sign, neither part has
/// a line feed, and neither has white space around it.
pub open spec fn plain(p: Pair) -> bool {
    &&& !p.0.contains('=')
    &&& !p.0.contains('\n')
    &&& !p.1.contains('\n')
    &&& text::trim_of(p.0) == p.0
    &&& text::trim_of(p.1) == p.1
}

/// Text without white space around it does not end in white space.
proof fn lemma_trimmed_end(s: Seq<char>)
    requires
        text::trim_of(s) == s,
        s.len() > 0,
    ensures
        !text::is_space(s.last()),
{
    lemma_trim_start_len(s);
    lemma_trim_end_len(text::trim_start_of(s));
    assert(text::trim_start_of(s).len() == s.len());
    lemma_trim_start_id(s);
}

proof fn lemma_trim_start_len(s: Seq<char>)
    ensures
        text::trim_start_of(s).len() <= s.len(),
    decreases s.len(),
{
    if s.len() > 0 && text::is_space(s[0]) {
        lemma_trim_start_len(s.drop_first());
    }
}

proof fn lemma_trim_start_id(s: Seq<char>)
    requires
        text::trim_start_of(s).len() == s.len(),
    ensures
        text::trim_start_of(s) == s,
{
    if s.len() > 0 && text::is_space(s[0]) {
        lemma_trim_start_len(s.drop_first());
    }
}

proof fn lemma_trim_end_len(s: Seq<char>)
    ensures
        text::trim_end_of(s).len() <= s.len(),
        s.len() > 0 && text::is_space(s.last()) ==> text::trim_end_of(s).len() < s.len(),
    decreases s.len(),
{
    if s.len() > 0 && text::is_space(s.last()) {
        lemma_trim_end_len(s.drop_last());
    }
}

/// The lines of plain pairs are read back as they were written.
proof fn lemma_lines_back(pairs: Seq<Pair>)
    requires
        forall|i: int| 0 <= i < pairs.len() ==> plain(#[trigger] pairs[i]),
    ensures
        text::lines_of(lines_text(pairs)) == pairs.map_values(|p: Pair| line_of(p)),
    decreases pairs.len(),
{
    let goal = pairs.map_values(|p: Pair| line_of(p));
    if pairs.len() == 0 {
        assert(goal =~= Seq::empty());
    } else {
        let p = pairs[0];
        let line = line_of(p);
        assert(plain(p));
        assert forall|i: int| 0 <= i < line.len() implies #[trigger] line[i] != '\n' by {
            if i < p.0.len() {
                assert(p.0.contains(p.0[i]));
            } else if i > p.0.len() {
                assert(line[i] == p.1[i - p.0.len() - 1]);
                assert(p.1.contains(p.1[i - p.0.len() - 1]));
            }
        }
        assert(line.last() != '\r') by {
            if p.1.len() > 0 {
                lemma_trimmed_end(p.1);
                assert(line.last() == p.1.last());
                assert(text::is_space('\r'));
            } else {
                assert(line[p.0.len() as int] == '=');
            }
        }
        let all = lines_text(pairs);
        if pairs.len() == 1 {
            text::lemma_first_of_is(all, '\n', all.len() as int);
            assert(goal =~= seq![line]);
        } else {
            let rest = pairs.drop_first();
            assert forall|i: int| 0 <= i < rest.len() implies plain(#[trigger] rest[i]) by {
                assert(rest[i] == pairs[i + 1]);
            }
            lemma_lines_back(rest);
            assert forall|i: int| 0 <= i < line.len() implies #[trigger] all[i] != '\n' by {
                assert(all[i] == line[i]);
            }
            assert(all[line.len() as int] == '\n');
            text::lemma_first_of_is(all, '\n', line.len() as int);
            assert(all.take(line.len() as int) =~= line);
            assert(all.skip(line.len() as int + 1) =~= lines_text(rest));
            assert(goal =~= seq![line] + rest.map_values(|q: Pair| line_of(q)));
        }
    }
}

proof fn lemma_pairs_back(pairs: Seq<Pair>)
    requires
        forall|i: int| 0 <= i < pairs.len() ==> plain(#[trigger] pairs[i]),
    ensures
        pairs_of(pairs.map_values(|p: Pair| line_of(p))) == pairs,
    decreases pairs.len(),
{
    let lines = pairs.map_values(|p: Pair| line_of(p));
    if pairs.len() > 0 {
        let head = pairs.drop_last();
        let p = pairs.last();
        assert(plain(pairs[pairs.len() - 1]));
        assert forall|i: int| 0 <= i < head.len() implies plain(#[trigger] head[i]) by {
            assert(head[i] == pairs[i]);
        }
        lemma_pairs_back(head);
        assert(lines.drop_last() =~= head.map_values(|q: Pair| line_of(q)));
        let line = line_of(p);
        assert forall|i: int| 0 <= i < p.0.len() implies #[trigger] line[i] != '=' by {
            assert(p.0.contains(p.0[i]));
        }
        assert(line[p.0.len() as int] == '=');
        text::lemma_first_of_is(line, '=', p.0.len() as int);
        assert(line.take(p.0.len() as int) =~= p.0);
        assert(line.skip(p.0.len() as int + 1) =~= p.1);
        assert(head.push(p) =~= pairs);
    } else {
        assert(lines =~= Seq::empty());
        assert(pairs =~= Seq::empty());
    }
}

/// Pairs that their lines can carry are read back from the bytes of those
/// lines, in their order.
pub proof fn law_pairs_round_trip(pairs: Seq<Pair>)
    requires
        forall|i: int| 0 <= i < pairs.len() ==> plain(#[trigger] pairs[i]),
    ensures
        pairs_of(
            text::lines_of(
                vstd::utf8::decode_utf8(vstd::utf8::encode_utf8(lines_text(pairs))),
            ),
        ) == pairs,
{
    vstd::utf8::encode_utf8_decode_utf8(lines_text(pairs));
    lemma_lines_back(pairs);
    lemma_pairs_back(pairs);
}

/// A map whose pairs their lines can carry is read back from its bytes.
pub proof fn law_bytes_round_trip(m: StringMap)
    requires
        forall|i: int| 0 <= i < m.pairs().len() ==> plain(#[trigger] m.pairs()[i]),
    ensures
        ({
            let bytes = vstd::utf8::encode_utf8(lines_text(m.pairs()));
            &&& vstd::utf8::valid_utf8(bytes)
            &&& map_of(pairs_of(text::lines_of(vstd::utf8::decode_utf8(bytes)))) == m@
        }),
{
    vstd::utf8::encode_utf8_valid_utf8(lines_text(m.pairs()));
    law_pairs_round_trip(m.pairs());
}

} // verus!
