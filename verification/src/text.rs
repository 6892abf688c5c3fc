//! Text helpers over the character view of strings.
use vstd::prelude::*;

verus! {

/// `String::push` appends one character at the end.
pub assume_specification[ String::push ](s: &mut String, c: char)
    ensures
        final(s)@ == old(s)@.push(c),
;

/// `std::str::from_utf8` accepts valid UTF-8 only, and hands out the text that
/// the bytes encode.
#[verifier::external_body]
pub(crate) fn from_utf8(bytes: &[u8]) -> (out: Option<String>)
    ensures
        match out {
            Some(s) => vstd::utf8::valid_utf8(bytes@) && s@ == vstd::utf8::decode_utf8(bytes@),
            None => !vstd::utf8::valid_utf8(bytes@),
        },
{
    std::str::from_utf8(bytes).ok().map(str::to_owned)
}

/// The characters of `s`, in order.
pub fn chars_of(s: &str) -> (out: Vec<char>)
    ensures
        out@ == s@,
{
    let mut out: Vec<char> = Vec::new();
    for c in it: s.chars()
        invariant
            out@ == s@.take(it.index()),
            it.seq() == s@,
    {
        out.push(c);
        assert(s@.take(it.index() + 1) =~= s@.take(it.index()).push(c));
    }
    assert(s@.take(s@.len() as int) =~= s@);
    out
}

/// An ASCII letter in lower case; every other character as it is.
pub open spec fn lower_char(c: char) -> char {
    if 'A' <= c && c <= 'Z' {
        ((c as u8) + 32) as u8 as char
    } else {
        c
    }
}

/// Text with its ASCII letters in lower case.
pub open spec fn ascii_lower(s: Seq<char>) -> Seq<char> {
    s.map_values(|c: char| lower_char(c))
}

/// Lower-case text stays as it is.
pub proof fn lemma_lower_idempotent(s: Seq<char>)
    ensures
        ascii_lower(ascii_lower(s)) == ascii_lower(s),
{
    assert(ascii_lower(ascii_lower(s)) =~= ascii_lower(s));
}

/// The text with its ASCII letters in lower case.
pub fn to_ascii_lowercase(s: &str) -> (out: String)
    ensures
        out@ == ascii_lower(s@),
{
    let mut out = String::new();
    for c in it: s.chars()
        invariant
            out@ == ascii_lower(s@.take(it.index())),
            it.seq() == s@,
    {
        let ghost done = s@.take(it.index());
        if 'A' <= c && c <= 'Z' {
            out.push((c as u8 + 32) as char);
        } else {
            out.push(c);
        }
        assert(s@.take(it.index() + 1) =~= done.push(c));
        assert(ascii_lower(done.push(c)) =~= ascii_lower(done).push(lower_char(c)));
    }
    assert(s@.take(s@.len() as int) =~= s@);
    out
}

/// The order of texts: by their first difference, a prefix before what it is a
/// prefix of.
pub open spec fn text_before(a: Seq<char>, b: Seq<char>) -> bool
    decreases b.len(),
{
    if b.len() == 0 {
        false
    } else if a.len() == 0 {
        true
    } else if a[0] != b[0] {
        a[0] < b[0]
    } else {
        text_before(a.drop_first(), b.drop_first())
    }
}

/// Texts are totally ordered.
pub proof fn lemma_text_order(a: Seq<char>, b: Seq<char>, c: Seq<char>)
    ensures
        text_before(a, b) ==> !text_before(b, a),
        !text_before(a, b) && !text_before(b, a) ==> a == b,
        !text_before(b, a) && !text_before(c, b) ==> !text_before(c, a),
    decreases a.len() + b.len() + c.len(),
{
    if a.len() > 0 && b.len() > 0 && c.len() > 0 {
        lemma_text_order(a.drop_first(), b.drop_first(), c.drop_first());
    } else if a.len() > 0 && b.len() > 0 {
        lemma_text_order(a.drop_first(), b.drop_first(), c);
    }
    if a.len() > 0 && b.len() > 0 && a[0] == b[0] && a.drop_first() == b.drop_first() {
        assert(a =~= seq![a[0]] + a.drop_first());
        assert(b =~= seq![b[0]] + b.drop_first());
    }
    if a.len() == 0 && b.len() == 0 {
        assert(a =~= b);
    }
}

/// Whether `a` comes before `b`.
pub fn precedes(a: &str, b: &str) -> (r: bool)
    ensures
        r == text_before(a@, b@),
{
    let x = chars_of(a);
    let y = chars_of(b);
    let mut i: usize = 0;
    assert(x@.skip(0) =~= x@);
    assert(y@.skip(0) =~= y@);
    while i < x.len() && i < y.len() && x[i] == y[i]
        invariant
            i <= x@.len(),
            i <= y@.len(),
            text_before(x@, y@) == text_before(x@.skip(i as int), y@.skip(i as int)),
        decreases x@.len() - i,
    {
        assert(x@.skip(i as int).drop_first() =~= x@.skip(i + 1));
        assert(y@.skip(i as int).drop_first() =~= y@.skip(i + 1));
        i += 1;
    }
    if i == y.len() {
        false
    } else if i == x.len() {
        true
    } else {
        x[i] < y[i]
    }
}

/// Appends a text.
pub fn push_text(s: &mut String, t: &str)
    ensures
        final(s)@ == old(s)@ + t@,
{
    let ghost start = s@;
    assert(start + t@.take(0) =~= start);
    for c in it: t.chars()
        invariant
            s@ == start + t@.take(it.index()),
            it.seq() == t@,
    {
        s.push(c);
        assert(start + t@.take(it.index() + 1) =~= (start + t@.take(it.index())).push(c));
    }
    assert(t@.take(t@.len() as int) =~= t@);
}

/// The character of a digit.
pub open spec fn digit_char(d: nat) -> char {
    ('0' as u8 + d) as u8 as char
}

/// A number in decimal digits, without leading zeros.
pub open spec fn decimal(n: nat) -> Seq<char>
    decreases n,
{
    if n < 10 {
        seq![digit_char(n)]
    } else {
        decimal(n / 10).push(digit_char(n % 10))
    }
}

/// Appends a number in decimal digits.
pub fn push_decimal(s: &mut String, n: u64)
    ensures
        final(s)@ == old(s)@ + decimal(n as nat),
    decreases n,
{
    if n >= 10 {
        push_decimal(s, n / 10);
    }
    let ghost before = s@;
    s.push(('0' as u8 + (n % 10) as u8) as char);
    proof {
        if n >= 10 {
            assert(old(s)@ + decimal(n as nat) =~= before.push(digit_char((n % 10) as nat)));
        } else {
            assert(old(s)@ + decimal(n as nat) =~= before.push(digit_char(n as nat)));
        }
    }
}

// ---------------------------------------------------------------------------
// Pieces of a text
// ---------------------------------------------------------------------------

/// The characters from `from` up to `to`.
pub fn sub_text(chars: &Vec<char>, from: usize, to: usize) -> (out: String)
    requires
        from <= to <= chars@.len(),
    ensures
        out@ == chars@.subrange(from as int, to as int),
{
    let mut out = String::new();
    let mut i: usize = from;
    while i < to
        invariant
            from <= i <= to <= chars@.len(),
            out@ == chars@.subrange(from as int, i as int),
        decreases to - i,
    {
        out.push(chars[i]);
        assert(chars@.subrange(from as int, i + 1) =~= chars@.subrange(from as int, i as int).push(
            chars@[i as int],
        ));
        i += 1;
    }
    out
}

/// The white space of Unicode.
pub open spec fn is_space(c: char) -> bool {
    let n = c as u32;
    ||| 0x09 <= n <= 0x0d
    ||| n == 0x20
    ||| n == 0x85
    ||| n == 0xa0
    ||| n == 0x1680
    ||| 0x2000 <= n <= 0x200a
    ||| n == 0x2028
    ||| n == 0x2029
    ||| n == 0x202f
    ||| n == 0x205f
    ||| n == 0x3000
}

/// Whether a character is white space.
pub fn is_whitespace(c: char) -> (b: bool)
    ensures
        b == is_space(c),
{
    let n: u32 = c as u32;
    (0x09 <= n && n <= 0x0d) || n == 0x20 || n == 0x85 || n == 0xa0 || n == 0x1680 || (0x2000 <= n
        && n <= 0x200a) || n == 0x2028 || n == 0x2029 || n == 0x202f || n == 0x205f || n == 0x3000
}

/// A text without the white space at its start.
pub open spec fn trim_start_of(s: Seq<char>) -> Seq<char>
    decreases s.len(),
{
    if s.len() > 0 && is_space(s[0]) {
        trim_start_of(s.drop_first())
    } else {
        s
    }
}

/// A text without the white space at its end.
pub open spec fn trim_end_of(s: Seq<char>) -> Seq<char>
    decreases s.len(),
{
    if s.len() > 0 && is_space(s.last()) {
        trim_end_of(s.drop_last())
    } else {
        s
    }
}

/// A text without the white space at either end.
pub open spec fn trim_of(s: Seq<char>) -> Seq<char> {
    trim_end_of(trim_start_of(s))
}

/// The range that is left of `from..to` without white space at either end.
pub fn trim_range(chars: &Vec<char>, from: usize, to: usize) -> (r: (usize, usize))
    requires
        from <= to <= chars@.len(),
    ensures
        from <= r.0 <= r.1 <= to,
        chars@.subrange(r.0 as int, r.1 as int) == trim_of(
            chars@.subrange(from as int, to as int),
        ),
{
    let ghost whole = chars@.subrange(from as int, to as int);
    let mut a: usize = from;
    while a < to && is_whitespace(chars[a])
        invariant
            from <= a <= to <= chars@.len(),
            trim_start_of(whole) == trim_start_of(chars@.subrange(a as int, to as int)),
        decreases to - a,
    {
        assert(chars@.subrange(a as int, to as int).drop_first() =~= chars@.subrange(
            a + 1,
            to as int,
        ));
        a += 1;
    }
    let ghost front = chars@.subrange(a as int, to as int);
    assert(trim_start_of(whole) == front);
    let mut b: usize = to;
    while b > a && is_whitespace(chars[b - 1])
        invariant
            a <= b <= to <= chars@.len(),
            trim_end_of(front) == trim_end_of(chars@.subrange(a as int, b as int)),
        decreases b - a,
    {
        assert(chars@.subrange(a as int, b as int).drop_last() =~= chars@.subrange(
            a as int,
            b - 1,
        ));
        b -= 1;
    }
    (a, b)
}

/// The text without the white space at either end.
pub fn trim(s: &str) -> (out: String)
    ensures
        out@ == trim_of(s@),
{
    let chars = chars_of(s);
    let n: usize = chars.len();
    let (a, b) = trim_range(&chars, 0, n);
    assert(chars@.subrange(0, n as int) =~= chars@);
    sub_text(&chars, a, b)
}

/// The place of the first `c`, or the length of the text.
pub open spec fn first_of(s: Seq<char>, c: char) -> int
    decreases s.len(),
{
    if s.len() == 0 || s[0] == c {
        0
    } else {
        1 + first_of(s.drop_first(), c)
    }
}

/// What `first_of` finds.
pub proof fn lemma_first_of(s: Seq<char>, c: char)
    ensures
        0 <= first_of(s, c) <= s.len(),
        forall|i: int| 0 <= i < first_of(s, c) ==> #[trigger] s[i] != c,
        first_of(s, c) < s.len() ==> s[first_of(s, c)] == c,
        s.contains(c) <==> first_of(s, c) < s.len(),
    decreases s.len(),
{
    if s.len() > 0 && s[0] != c {
        let rest = s.drop_first();
        lemma_first_of(rest, c);
        assert forall|i: int| 0 <= i < first_of(s, c) implies #[trigger] s[i] != c by {
            if i > 0 {
                assert(rest[i - 1] == s[i]);
            }
        }
        if s.contains(c) {
            let i = choose|i: int| 0 <= i < s.len() && s[i] == c;
            assert(rest[i - 1] == c);
        }
    }
    if first_of(s, c) < s.len() {
        assert(s[first_of(s, c)] == c);
    }
}

/// A place before which there is no `c`, and at which there is one unless it
/// is the end, is the first.
pub proof fn lemma_first_of_is(s: Seq<char>, c: char, n: int)
    requires
        0 <= n <= s.len(),
        forall|i: int| 0 <= i < n ==> #[trigger] s[i] != c,
        n < s.len() ==> s[n] == c,
    ensures
        first_of(s, c) == n,
{
    lemma_first_of(s, c);
}

/// The place of the first `c` in `from..to`, or `to`.
pub fn find_char(chars: &Vec<char>, from: usize, to: usize, c: char) -> (at: usize)
    requires
        from <= to <= chars@.len(),
    ensures
        from <= at <= to,
        at - from == first_of(chars@.subrange(from as int, to as int), c),
{
    let mut at: usize = from;
    while at < to && chars[at] != c
        invariant
            from <= at <= to <= chars@.len(),
            forall|i: int| from <= i < at ==> #[trigger] chars@[i] != c,
        decreases to - at,
    {
        at += 1;
    }
    proof {
        let part = chars@.subrange(from as int, to as int);
        assert forall|i: int| 0 <= i < at - from implies #[trigger] part[i] != c by {
            assert(part[i] == chars@[from + i]);
        }
        lemma_first_of_is(part, c, at - from);
    }
    at
}

/// The pieces of a text between the occurrences of `c`.
pub open spec fn split_of(s: Seq<char>, c: char) -> Seq<Seq<char>>
    decreases s.len(),
{
    let n = first_of(s, c);
    if 0 <= n < s.len() {
        seq![s.take(n)] + split_of(s.skip(n + 1), c)
    } else {
        seq![s]
    }
}

/// The models of some texts.
pub open spec fn texts(v: Seq<String>) -> Seq<Seq<char>> {
    v.map_values(|s: String| s@)
}

/// The pieces of a text between the occurrences of `c`.
pub fn split(s: &str, c: char) -> (out: Vec<String>)
    ensures
        texts(out@) == split_of(s@, c),
{
    let chars = chars_of(s);
    let n: usize = chars.len();
    let mut out: Vec<String> = Vec::new();
    let mut from: usize = 0;
    assert(texts(out@) + split_of(chars@.skip(0), c) =~= split_of(s@, c)) by {
        assert(chars@.skip(0) =~= s@);
    }
    loop
        invariant
            from <= n,
            n == chars@.len(),
            texts(out@) + split_of(chars@.skip(from as int), c) == split_of(s@, c),
        decreases n - from,
    {
        let at = find_char(&chars, from, n, c);
        let piece = sub_text(&chars, from, at);
        let ghost rest = chars@.skip(from as int);
        let ghost before = texts(out@);
        assert(chars@.subrange(from as int, n as int) =~= rest);
        assert(piece@ =~= rest.take(at - from));
        out.push(piece);
        assert(texts(out@) =~= before.push(piece@));
        if at == n {
            assert(rest.take(at - from) =~= rest);
            assert(texts(out@) =~= before + seq![rest]);
            return out;
        }
        assert(rest.skip(at - from + 1) =~= chars@.skip(at + 1));
        assert(before + (seq![rest.take(at - from)] + split_of(chars@.skip(at + 1), c))
            =~= texts(out@) + split_of(chars@.skip(at + 1), c));
        from = at + 1;
    }
}

/// The two parts of a text around its first `c`.
pub open spec fn split_once_of(s: Seq<char>, c: char) -> Option<(Seq<char>, Seq<char>)> {
    let n = first_of(s, c);
    if 0 <= n < s.len() {
        Some((s.take(n), s.skip(n + 1)))
    } else {
        None
    }
}

/// The two parts of the text around its first `c`.
pub fn split_once(s: &str, c: char) -> (out: Option<(String, String)>)
    ensures
        match out {
            Some(p) => split_once_of(s@, c) == Some((p.0@, p.1@)),
            None => split_once_of(s@, c) is None,
        },
{
    let chars = chars_of(s);
    let n: usize = chars.len();
    let at = find_char(&chars, 0, n, c);
    assert(chars@.subrange(0, n as int) =~= s@);
    if at == n {
        return None;
    }
    let a = sub_text(&chars, 0, at);
    let b = sub_text(&chars, at + 1, n);
    assert(a@ =~= s@.take(at as int));
    assert(b@ =~= s@.skip(at + 1));
    Some((a, b))
}

/// The place of the last `c`, or -1.
pub open spec fn last_of(s: Seq<char>, c: char) -> int
    decreases s.len(),
{
    if s.len() == 0 {
        -1
    } else if s.last() == c {
        s.len() - 1
    } else {
        last_of(s.drop_last(), c)
    }
}

/// The place of the last `c` in the first `to` characters.
pub fn rfind_char(chars: &Vec<char>, to: usize, c: char) -> (at: Option<usize>)
    requires
        to <= chars@.len(),
    ensures
        match at {
            Some(i) => last_of(chars@.take(to as int), c) == i && i < to,
            None => last_of(chars@.take(to as int), c) == -1,
        },
{
    let mut n: usize = to;
    while n > 0
        invariant
            n <= to <= chars@.len(),
            last_of(chars@.take(to as int), c) == last_of(chars@.take(n as int), c),
        decreases n,
    {
        if chars[n - 1] == c {
            return Some(n - 1);
        }
        assert(chars@.take(n as int).drop_last() =~= chars@.take(n - 1));
        n -= 1;
    }
    None
}

/// The two parts of a text around its last `c`.
pub open spec fn rsplit_once_of(s: Seq<char>, c: char) -> Option<(Seq<char>, Seq<char>)> {
    let n = last_of(s, c);
    if 0 <= n < s.len() {
        Some((s.take(n), s.skip(n + 1)))
    } else {
        None
    }
}

/// The two parts of the text around its last `c`.
pub fn rsplit_once(s: &str, c: char) -> (out: Option<(String, String)>)
    ensures
        match out {
            Some(p) => rsplit_once_of(s@, c) == Some((p.0@, p.1@)),
            None => rsplit_once_of(s@, c) is None,
        },
{
    let chars = chars_of(s);
    let n: usize = chars.len();
    assert(chars@.take(n as int) =~= s@);
    match rfind_char(&chars, n, c) {
        Some(at) => {
            let a = sub_text(&chars, 0, at);
            let b = sub_text(&chars, at + 1, n);
            assert(a@ =~= s@.take(at as int));
            assert(b@ =~= s@.skip(at + 1));
            Some((a, b))
        },
        None => None,
    }
}

/// The length of the run of characters before the first white space.
pub open spec fn word_len(s: Seq<char>) -> nat
    decreases s.len(),
{
    if s.len() == 0 || is_space(s[0]) {
        0
    } else {
        1 + word_len(s.drop_first())
    }
}

/// The words of a text: what white space separates.
pub open spec fn words_of(s: Seq<char>) -> Seq<Seq<char>>
    decreases s.len(),
{
    if s.len() == 0 {
        Seq::empty()
    } else if is_space(s[0]) {
        words_of(s.drop_first())
    } else {
        let n = word_len(s);
        if 0 < n <= s.len() {
            seq![s.take(n as int)] + words_of(s.skip(n as int))
        } else {
            Seq::empty()
        }
    }
}

proof fn lemma_word_len(s: Seq<char>, n: int)
    requires
        0 <= n <= s.len(),
        forall|i: int| 0 <= i < n ==> !is_space(#[trigger] s[i]),
        n < s.len() ==> is_space(s[n]),
    ensures
        word_len(s) == n,
    decreases s.len(),
{
    if s.len() > 0 && n > 0 {
        let rest = s.drop_first();
        assert forall|i: int| 0 <= i < n - 1 implies !is_space(#[trigger] rest[i]) by {
            assert(rest[i] == s[i + 1]);
        }
        lemma_word_len(rest, n - 1);
        assert(!is_space(s[0]));
    }
}

/// The words of the text.
pub fn split_whitespace(s: &str) -> (out: Vec<String>)
    ensures
        texts(out@) == words_of(s@),
{
    let chars = chars_of(s);
    let n: usize = chars.len();
    let mut out: Vec<String> = Vec::new();
    let mut from: usize = 0;
    assert(texts(out@) + words_of(chars@.skip(0)) =~= words_of(s@)) by {
        assert(chars@.skip(0) =~= s@);
    }
    while from < n
        invariant
            from <= n,
            n == chars@.len(),
            texts(out@) + words_of(chars@.skip(from as int)) == words_of(s@),
        decreases n - from,
    {
        let ghost rest = chars@.skip(from as int);
        if is_whitespace(chars[from]) {
            assert(rest.drop_first() =~= chars@.skip(from + 1));
            from += 1;
        } else {
            let mut to: usize = from;
            while to < n && !is_whitespace(chars[to])
                invariant
                    from <= to <= n,
                    n == chars@.len(),
                    forall|i: int| from <= i < to ==> !is_space(#[trigger] chars@[i]),
                decreases n - to,
            {
                to += 1;
            }
            proof {
                assert forall|i: int| 0 <= i < to - from implies !is_space(#[trigger] rest[i]) by {
                    assert(rest[i] == chars@[from + i]);
                }
                lemma_word_len(rest, to - from);
                assert(to > from) by {
                    assert(rest[0] == chars@[from as int]);
                }
            }
            let word = sub_text(&chars, from, to);
            let ghost before = texts(out@);
            assert(word@ =~= rest.take(to - from));
            out.push(word);
            assert(texts(out@) =~= before.push(word@));
            assert(rest.skip(to - from) =~= chars@.skip(to as int));
            assert(before + (seq![word@] + words_of(chars@.skip(to as int))) =~= texts(out@)
                + words_of(chars@.skip(to as int)));
            from = to;
        }
    }
    assert(chars@.skip(from as int) =~= Seq::empty());
    assert(texts(out@) + Seq::<Seq<char>>::empty() =~= texts(out@));
    out
}

/// A line without the carriage return that ended it.
pub open spec fn strip_cr(s: Seq<char>) -> Seq<char> {
    if s.len() > 0 && s.last() == '\r' {
        s.drop_last()
    } else {
        s
    }
}

/// The lines of a text: each ends with a line feed, or with a carriage return
/// and a line feed; the last one may lack its end.
pub open spec fn lines_of(s: Seq<char>) -> Seq<Seq<char>>
    decreases s.len(),
{
    if s.len() == 0 {
        Seq::empty()
    } else {
        let n = first_of(s, '\n');
        if 0 <= n < s.len() {
            seq![strip_cr(s.take(n))] + lines_of(s.skip(n + 1))
        } else {
            seq![s]
        }
    }
}

/// The lines of the text.
pub fn lines(s: &str) -> (out: Vec<String>)
    ensures
        texts(out@) == lines_of(s@),
{
    let chars = chars_of(s);
    let n: usize = chars.len();
    let mut out: Vec<String> = Vec::new();
    let mut from: usize = 0;
    assert(texts(out@) + lines_of(chars@.skip(0)) =~= lines_of(s@)) by {
        assert(chars@.skip(0) =~= s@);
    }
    while from < n
        invariant
            from <= n,
            n == chars@.len(),
            texts(out@) + lines_of(chars@.skip(from as int)) == lines_of(s@),
        decreases n - from,
    {
        let ghost rest = chars@.skip(from as int);
        let ghost before = texts(out@);
        let at = find_char(&chars, from, n, '\n');
        assert(chars@.subrange(from as int, n as int) =~= rest);
        if at == n {
            let line = sub_text(&chars, from, n);
            assert(line@ =~= rest);
            out.push(line);
            assert(texts(out@) =~= before + seq![rest]);
            return out;
        }
        let end: usize = if at > from && chars[at - 1] == '\r' {
            at - 1
        } else {
            at
        };
        let line = sub_text(&chars, from, end);
        assert(line@ =~= strip_cr(rest.take(at - from)));
        out.push(line);
        assert(texts(out@) =~= before.push(line@));
        assert(rest.skip(at - from + 1) =~= chars@.skip(at + 1));
        assert(before + (seq![line@] + lines_of(chars@.skip(at + 1))) =~= texts(out@) + lines_of(
            chars@.skip(at + 1),
        ));
        from = at + 1;
    }
    assert(chars@.skip(from as int) =~= Seq::empty());
    assert(texts(out@) + Seq::<Seq<char>>::empty() =~= texts(out@));
    out
}

// ---------------------------------------------------------------------------
// Comparing
// ---------------------------------------------------------------------------

/// Whether two texts are equal.
pub fn same(a: &str, b: &str) -> (r: bool)
    ensures
        r == (a@ == b@),
{
    let x = chars_of(a);
    let y = chars_of(b);
    if x.len() != y.len() {
        return false;
    }
    let mut i: usize = 0;
    while i < x.len()
        invariant
            i <= x@.len(),
            x@ == a@,
            y@ == b@,
            x@.len() == y@.len(),
            forall|j: int| 0 <= j < i ==> #[trigger] x@[j] == y@[j],
        decreases x@.len() - i,
    {
        if x[i] != y[i] {
            return false;
        }
        i += 1;
    }
    assert(x@ =~= y@);
    true
}

/// Whether two texts are equal up to ASCII case.
pub fn same_ignoring_case(a: &str, b: &str) -> (r: bool)
    ensures
        r == (ascii_lower(a@) == ascii_lower(b@)),
{
    let x = to_ascii_lowercase(a);
    let y = to_ascii_lowercase(b);
    same(x.as_str(), y.as_str())
}

/// Whether `s` begins with `p`.
pub open spec fn has_prefix(s: Seq<char>, p: Seq<char>) -> bool {
    p.len() <= s.len() && s.take(p.len() as int) == p
}

/// Whether the text begins with `p`.
pub fn starts_with(s: &str, p: &str) -> (r: bool)
    ensures
        r == has_prefix(s@, p@),
{
    let x = chars_of(s);
    let y = chars_of(p);
    if y.len() > x.len() {
        return false;
    }
    let head = sub_text(&x, 0, y.len());
    assert(head@ =~= s@.take(p@.len() as int));
    same(head.as_str(), p)
}

/// The rest of the text behind the prefix `p`, if it begins with it.
pub fn strip_prefix(s: &str, p: &str) -> (out: Option<String>)
    ensures
        match out {
            Some(rest) => has_prefix(s@, p@) && rest@ == s@.skip(p@.len() as int),
            None => !has_prefix(s@, p@),
        },
{
    if starts_with(s, p) {
        let x = chars_of(s);
        let y = chars_of(p);
        let rest = sub_text(&x, y.len(), x.len());
        assert(rest@ =~= s@.skip(p@.len() as int));
        Some(rest)
    } else {
        None
    }
}

// ---------------------------------------------------------------------------
// Numbers
// ---------------------------------------------------------------------------

/// Whether a character is a decimal digit.
pub open spec fn is_digit(c: char) -> bool {
    '0' <= c && c <= '9'
}

/// The value of a run of decimal digits.
pub open spec fn digits_value(s: Seq<char>) -> nat
    decreases s.len(),
{
    if s.len() == 0 {
        0
    } else {
        digits_value(s.drop_last()) * 10 + (s.last() as nat - '0' as nat) as nat
    }
}

/// Whether every character is a decimal digit.
pub open spec fn all_digits(s: Seq<char>) -> bool {
    forall|i: int| 0 <= i < s.len() ==> is_digit(#[trigger] s[i])
}

/// A text without a leading plus sign.
pub open spec fn without_plus(s: Seq<char>) -> Seq<char> {
    if s.len() > 0 && s[0] == '+' {
        s.drop_first()
    } else {
        s
    }
}

/// The number up to `max` that a text writes: one or more decimal digits, with
/// or without a plus sign before them.
pub open spec fn number_of(s: Seq<char>, max: nat) -> Option<nat> {
    let digits = without_plus(s);
    if digits.len() > 0 && all_digits(digits) && digits_value(digits) <= max {
        Some(digits_value(digits))
    } else {
        None
    }
}

/// More digits never make a smaller number.
proof fn lemma_digits_grow(s: Seq<char>, n: int)
    requires
        0 <= n <= s.len(),
    ensures
        digits_value(s.take(n)) <= digits_value(s),
    decreases s.len() - n,
{
    if n < s.len() {
        lemma_digits_grow(s, n + 1);
        assert(s.take(n + 1).drop_last() =~= s.take(n));
    } else {
        assert(s.take(n) =~= s);
    }
}

/// Reads the decimal digits of `from..to` as a number up to `max`.
fn read_digits(chars: &Vec<char>, from: usize, to: usize, max: u64) -> (out: Option<u64>)
    requires
        from <= to <= chars@.len(),
    ensures
        ({
            let digits = chars@.subrange(from as int, to as int);
            match out {
                Some(n) => digits.len() > 0 && all_digits(digits) && digits_value(digits) == n && n
                    <= max,
                None => digits.len() == 0 || !all_digits(digits) || digits_value(digits) > max,
            }
        }),
{
    let ghost digits = chars@.subrange(from as int, to as int);
    if from == to {
        return None;
    }
    let mut n: u64 = 0;
    let mut i: usize = from;
    assert(digits.take(0) =~= Seq::empty());
    while i < to
        invariant
            from <= i <= to <= chars@.len(),
            digits == chars@.subrange(from as int, to as int),
            forall|j: int| 0 <= j < i - from ==> is_digit(#[trigger] digits[j]),
            n == digits_value(digits.take(i - from)),
            n <= max,
        decreases to - i,
    {
        let c = chars[i];
        assert(c == digits[i - from]);
        if !('0' <= c && c <= '9') {
            return None;
        }
        let d: u64 = (c as u32 - '0' as u32) as u64;
        proof {
            assert(digits.take(i - from + 1).drop_last() =~= digits.take(i - from));
            lemma_digits_grow(digits, i - from + 1);
        }
        let next: u128 = n as u128 * 10 + d as u128;
        if next > max as u128 {
            return None;
        }
        n = next as u64;
        i += 1;
    }
    assert(digits.take(i - from) =~= digits);
    Some(n)
}

/// Reads a number up to `max`.
pub fn parse_number(s: &str, max: u64) -> (out: Option<u64>)
    ensures
        match out {
            Some(n) => number_of(s@, max as nat) == Some(n as nat),
            None => number_of(s@, max as nat) is None,
        },
{
    let chars = chars_of(s);
    let n: usize = chars.len();
    if n > 0 && chars[0] == '+' {
        assert(chars@.subrange(1, n as int) =~= without_plus(s@));
        read_digits(&chars, 1, n, max)
    } else {
        assert(chars@.subrange(0, n as int) =~= without_plus(s@));
        read_digits(&chars, 0, n, max)
    }
}

/// Reads a port number.
pub fn parse_port(s: &str) -> (out: Option<u16>)
    ensures
        match out {
            Some(n) => number_of(s@, 0xffff) == Some(n as nat),
            None => number_of(s@, 0xffff) is None,
        },
{
    match parse_number(s, 0xffff) {
        Some(n) => Some(n as u16),
        None => None,
    }
}

// ---------------------------------------------------------------------------
// More pieces
// ---------------------------------------------------------------------------

/// A text without the `c`s at its start.
pub open spec fn trim_char_start_of(s: Seq<char>, c: char) -> Seq<char>
    decreases s.len(),
{
    if s.len() > 0 && s[0] == c {
        trim_char_start_of(s.drop_first(), c)
    } else {
        s
    }
}

/// A text without the `c`s at its end.
pub open spec fn trim_char_end_of(s: Seq<char>, c: char) -> Seq<char>
    decreases s.len(),
{
    if s.len() > 0 && s.last() == c {
        trim_char_end_of(s.drop_last(), c)
    } else {
        s
    }
}

/// A text without the `c`s at either end.
pub open spec fn trim_char_of(s: Seq<char>, c: char) -> Seq<char> {
    trim_char_end_of(trim_char_start_of(s, c), c)
}

/// The text without the `c`s at either end.
pub fn trim_matches(s: &str, c: char) -> (out: String)
    ensures
        out@ == trim_char_of(s@, c),
{
    let chars = chars_of(s);
    let n: usize = chars.len();
    let mut a: usize = 0;
    assert(chars@.skip(0) =~= chars@);
    while a < n && chars[a] == c
        invariant
            a <= n,
            n == chars@.len(),
            trim_char_start_of(chars@, c) == trim_char_start_of(chars@.skip(a as int), c),
        decreases n - a,
    {
        assert(chars@.skip(a as int).drop_first() =~= chars@.skip(a + 1));
        a += 1;
    }
    let ghost front = chars@.skip(a as int);
    assert(trim_char_start_of(chars@, c) == front);
    let mut b: usize = n;
    assert(chars@.subrange(a as int, n as int) =~= front);
    while b > a && chars[b - 1] == c
        invariant
            a <= b <= n,
            n == chars@.len(),
            trim_char_end_of(front, c) == trim_char_end_of(chars@.subrange(a as int, b as int), c),
        decreases b - a,
    {
        assert(chars@.subrange(a as int, b as int).drop_last() =~= chars@.subrange(
            a as int,
            b - 1,
        ));
        b -= 1;
    }
    sub_text(&chars, a, b)
}

/// Whether the text holds `c`.
pub fn contains_char(s: &str, c: char) -> (r: bool)
    ensures
        r == s@.contains(c),
{
    let chars = chars_of(s);
    let n: usize = chars.len();
    let at = find_char(&chars, 0, n, c);
    proof {
        assert(chars@.subrange(0, n as int) =~= s@);
        lemma_first_of(s@, c);
    }
    at < n
}

/// Whether `part` occurs in `s` at `at`.
pub open spec fn text_at(s: Seq<char>, part: Seq<char>, at: int) -> bool {
    0 <= at && at + part.len() <= s.len() && s.subrange(at, at + part.len()) == part
}

/// Whether `part` occurs in `s`.
pub open spec fn has_part(s: Seq<char>, part: Seq<char>) -> bool {
    exists|i: int| #[trigger] text_at(s, part, i)
}

/// Whether `part` occurs in the text.
pub fn contains(s: &str, part: &str) -> (r: bool)
    ensures
        r == has_part(s@, part@),
{
    let x = chars_of(s);
    let y = chars_of(part);
    let n: usize = x.len();
    let m: usize = y.len();
    if m > n {
        return false;
    }
    let last: usize = n - m;
    let mut i: usize = 0;
    while i <= last
        invariant
            last == n - m,
            n == x.len(),
            m == y@.len(),
            x@ == s@,
            y@ == part@,
            i <= last + 1,
            forall|j: int| 0 <= j < i ==> !text_at(s@, part@, j),
        decreases last + 1 - i,
    {
        let piece = sub_text(&x, i, i + m);
        if same(piece.as_str(), part) {
            assert(text_at(s@, part@, i as int));
            return true;
        }
        if i == last {
            assert forall|j: int| !text_at(s@, part@, j) by {
                if text_at(s@, part@, j) && j == i as int {
                }
            }
            return false;
        }
        i += 1;
    }
    false
}

/// The place of the first carriage return that a line feed follows, or the
/// length of the text.
pub open spec fn first_crlf(s: Seq<char>) -> int
    decreases s.len(),
{
    if s.len() < 2 {
        s.len() as int
    } else if s[0] == '\r' && s[1] == '\n' {
        0
    } else {
        1 + first_crlf(s.drop_first())
    }
}

/// The pieces of a text between its CRLFs.
pub open spec fn split_crlf_of(s: Seq<char>) -> Seq<Seq<char>>
    decreases s.len(),
{
    let n = first_crlf(s);
    if 0 <= n && n + 2 <= s.len() {
        seq![s.take(n)] + split_crlf_of(s.skip(n + 2))
    } else {
        seq![s]
    }
}

/// The pieces of the text between its CRLFs.
pub fn split_crlf(s: &str) -> (out: Vec<String>)
    ensures
        texts(out@) == split_crlf_of(s@),
{
    let chars = chars_of(s);
    let n: usize = chars.len();
    let mut out: Vec<String> = Vec::new();
    let mut from: usize = 0;
    assert(texts(out@) + split_crlf_of(chars@.skip(0)) =~= split_crlf_of(s@)) by {
        assert(chars@.skip(0) =~= s@);
    }
    loop
        invariant
            from <= n,
            n == chars.len(),
            texts(out@) + split_crlf_of(chars@.skip(from as int)) == split_crlf_of(s@),
        decreases n - from,
    {
        let ghost rest = chars@.skip(from as int);
        let ghost before = texts(out@);
        let mut at: usize = from;
        assert(rest.skip(0) =~= rest);
        while n - at >= 2 && !(chars[at] == '\r' && chars[at + 1] == '\n')
            invariant
                from <= at <= n,
                n == chars.len(),
                n == chars@.len(),
                rest == chars@.skip(from as int),
                first_crlf(rest) == (at - from) + first_crlf(rest.skip(at - from)),
            decreases n - at,
        {
            let ghost here = rest.skip(at - from);
            assert(here[0] == chars@[at as int] && here[1] == chars@[at + 1]);
            assert(here.drop_first() =~= rest.skip(at - from + 1));
            at += 1;
        }
        let ghost here = rest.skip(at - from);
        if n - at >= 2 {
            assert(here[0] == chars@[at as int] && here[1] == chars@[at + 1]);
            let piece = sub_text(&chars, from, at);
            assert(piece@ =~= rest.take(at - from));
            out.push(piece);
            assert(texts(out@) =~= before.push(piece@));
            assert(rest.skip(at - from + 2) =~= chars@.skip(at + 2));
            assert(before + (seq![piece@] + split_crlf_of(chars@.skip(at + 2))) =~= texts(out@)
                + split_crlf_of(chars@.skip(at + 2)));
            from = at + 2;
        } else {
            assert(here.len() < 2);
            let piece = sub_text(&chars, from, n);
            assert(piece@ =~= rest);
            out.push(piece);
            assert(texts(out@) =~= before + seq![rest]);
            return out;
        }
    }
}

/// The character of a hexadecimal digit, in lower case.
pub open spec fn hex_char(d: nat) -> char {
    if d < 10 {
        ('0' as u8 + d) as u8 as char
    } else {
        ('a' as u8 + (d - 10)) as u8 as char
    }
}

/// A byte as two hexadecimal digits.
pub open spec fn hex_byte(b: u8) -> Seq<char> {
    seq![hex_char((b / 16) as nat), hex_char((b % 16) as nat)]
}

fn hex_digit(d: u8) -> (c: char)
    requires
        d < 16,
    ensures
        c == hex_char(d as nat),
{
    if d < 10 {
        ('0' as u8 + d) as char
    } else {
        ('a' as u8 + (d - 10)) as char
    }
}

/// Appends a byte as two hexadecimal digits.
pub fn push_hex_byte(s: &mut String, b: u8)
    ensures
        final(s)@ == old(s)@ + hex_byte(b),
{
    let ghost before = s@;
    s.push(hex_digit(b / 16));
    s.push(hex_digit(b % 16));
    assert(s@ =~= before + hex_byte(b));
}

/// The texts `a`, `b`, one after the other.
pub fn join2(a: &str, b: &str) -> (out: String)
    ensures
        out@ == a@ + b@,
{
    let mut out = String::new();
    push_text(&mut out, a);
    push_text(&mut out, b);
    assert(out@ =~= a@ + b@);
    out
}

/// The texts `a`, `b`, `c`, one after the other.
pub fn join3(a: &str, b: &str, c: &str) -> (out: String)
    ensures
        out@ == a@ + b@ + c@,
{
    let mut out = join2(a, b);
    push_text(&mut out, c);
    out
}

/// What `String::from_utf8` says of bytes that are not UTF-8.
pub uninterp spec fn utf8_fault(bytes: Seq<u8>) -> Seq<char>;

/// The `Display` form of the error of `String::from_utf8`. Its wording is not
/// stated here.
#[verifier::external_body]
pub(crate) fn utf8_fault_text(bytes: &[u8]) -> (out: String)
    requires
        !vstd::utf8::valid_utf8(bytes@),
    ensures
        out@ == utf8_fault(bytes@),
{
    String::from_utf8(bytes.to_vec()).err().map(|e| e.to_string()).unwrap_or_default()
}

/// The text that some bytes give when what is not UTF-8 is replaced.
pub uninterp spec fn lossy_text(bytes: Seq<u8>) -> Seq<char>;

/// `String::from_utf8_lossy` hands out the text that valid UTF-8 encodes. What
/// it makes of other bytes is not stated here.
#[verifier::external_body]
pub(crate) fn from_utf8_lossy(bytes: &[u8]) -> (out: String)
    ensures
        out@ == lossy_text(bytes@),
        vstd::utf8::valid_utf8(bytes@) ==> out@ == vstd::utf8::decode_utf8(bytes@),
{
    String::from_utf8_lossy(bytes).into_owned()
}

/// The model of a text that may be there.
pub open spec fn opt_text(s: Option<String>) -> Option<Seq<char>> {
    match s {
        Some(t) => Some(t@),
        None => None,
    }
}

/// A copy of a text that may be there.
pub fn copy_opt(s: &Option<String>) -> (out: Option<String>)
    ensures
        opt_text(out) == opt_text(*s),
{
    match s {
        Some(t) => Some(t.as_str().to_owned()),
        None => None,
    }
}

/// The text in lower case.
pub uninterp spec fn lower_text(s: Seq<char>) -> Seq<char>;

/// std's `str::to_lowercase`, which goes by Unicode. What it makes of a
/// character is not stated here.
#[verifier::external_body]
pub(crate) fn to_lowercase(s: &str) -> (out: String)
    ensures
        out@ == lower_text(s@),
{
    s.to_lowercase()
}

} // verus!
