//! What holds of every text that is split, searched, compared or spelt out.
use crate::octets;
use crate::text;
use crate::text_laws;
use crate::text_laws::{alike, all_visible};
use vstd::prelude::*;

verus! {

/// Texts in a row, a character between each two.
pub open spec fn joined_by(parts: Seq<Seq<char>>, c: char) -> Seq<char>
    decreases parts.len(),
{
    if parts.len() == 0 {
        Seq::empty()
    } else if parts.len() == 1 {
        parts[0]
    } else {
        parts[0] + seq![c] + joined_by(parts.drop_first(), c)
    }
}

/// The pieces of a text, put together with the character at which it was split,
/// are the text, and none of them holds the character.
pub proof fn law_split(s: &str, c: char, out: Vec<String>)
    requires
        call_ensures(text::split, (s, c), out),
    ensures
        out@.len() > 0,
        joined_by(text::texts(out@), c) == s@,
        forall|i: int| 0 <= i < out@.len() ==> !(#[trigger] out@[i])@.contains(c),
{
    lemma_split(s@, c);
    let t = text::texts(out@);
    assert(t.len() == out@.len());
    assert forall|i: int| 0 <= i < out@.len() implies !(#[trigger] out@[i])@.contains(c) by {
        assert(t[i] == out@[i]@);
    }
}

proof fn lemma_split(s: Seq<char>, c: char)
    ensures
        text::split_of(s, c).len() > 0,
        joined_by(text::split_of(s, c), c) == s,
        forall|i: int|
            0 <= i < text::split_of(s, c).len() ==> !(#[trigger] text::split_of(s, c)[i]).contains(
                c,
            ),
    decreases s.len(),
{
    text::lemma_first_of(s, c);
    let n = text::first_of(s, c);
    let all = text::split_of(s, c);
    if 0 <= n < s.len() {
        let rest = text::split_of(s.skip(n + 1), c);
        lemma_split(s.skip(n + 1), c);
        assert(all == seq![s.take(n)] + rest);
        assert(all.drop_first() =~= rest);
        assert(all.len() > 1);
        assert(joined_by(all, c) =~= s.take(n) + seq![c] + s.skip(n + 1));
        assert(s.take(n) + seq![c] + s.skip(n + 1) =~= s);
        assert forall|i: int| 0 <= i < all.len() implies !(#[trigger] all[i]).contains(c) by {
            if i > 0 {
                assert(all[i] == rest[i - 1]);
            } else {
                let a = s.take(n);
                if a.contains(c) {
                    let j = choose|j: int| 0 <= j < a.len() && a[j] == c;
                    assert(s[j] == c);
                }
            }
        }
    } else {
        assert(all == seq![s]);
    }
}

/// A text is split once at the first place of a character, and where it has
/// none, not at all.
pub proof fn law_split_once(s: &str, c: char, out: Option<(String, String)>)
    requires
        call_ensures(text::split_once, (s, c), out),
    ensures
        out is Some <==> s@.contains(c),
        out matches Some(p) ==> s@ == p.0@ + seq![c] + p.1@ && !p.0@.contains(c),
{
    text::lemma_first_of(s@, c);
    if out is Some {
        let n = text::first_of(s@, c);
        let p = out->0;
        assert(s@[n] == c);
        assert(s@ =~= p.0@ + seq![c] + p.1@);
        if p.0@.contains(c) {
            let j = choose|j: int| 0 <= j < p.0@.len() && p.0@[j] == c;
            assert(s@[j] == c);
        }
    }
}

/// Split from behind, a text is split at the last place of a character.
pub proof fn law_rsplit_once(s: &str, c: char, out: Option<(String, String)>)
    requires
        call_ensures(text::rsplit_once, (s, c), out),
    ensures
        out is Some <==> s@.contains(c),
        out matches Some(p) ==> s@ == p.0@ + seq![c] + p.1@ && !p.1@.contains(c),
{
    if !s@.contains(c) {
        text_laws::lemma_last_of_none(s@, c);
    } else {
        let (a, b) = lemma_last_place(s@, c);
        text_laws::lemma_last_of(a, c, b);
        assert(s@.take(a.len() as int) =~= a);
        assert(s@.skip(a.len() as int + 1) =~= b);
    }
}

proof fn lemma_last_place(s: Seq<char>, c: char) -> (r: (Seq<char>, Seq<char>))
    requires
        s.contains(c),
    ensures
        s == r.0 + seq![c] + r.1,
        !r.1.contains(c),
    decreases s.len(),
{
    if s.last() == c {
        assert(s =~= s.drop_last() + seq![c] + Seq::<char>::empty());
        (s.drop_last(), Seq::empty())
    } else {
        let t = s.drop_last();
        let i = choose|i: int| 0 <= i < s.len() && s[i] == c;
        assert(t[i] == c);
        let (a, b) = lemma_last_place(t, c);
        assert(s =~= t.push(s.last()));
        assert((a + seq![c] + b).push(s.last()) =~= a + seq![c] + b.push(s.last()));
        assert(!b.push(s.last()).contains(c)) by {
            let d = b.push(s.last());
            if d.contains(c) {
                let j = choose|j: int| 0 <= j < d.len() && d[j] == c;
                if j < b.len() {
                    assert(b[j] == c);
                }
            }
        }
        (a, b.push(s.last()))
    }
}

/// A text starts with another when it is that one with something behind it, and
/// that is what is left when the start is taken off.
pub proof fn law_prefix(s: &str, p: &str, b: bool, rest: Option<String>)
    requires
        call_ensures(text::starts_with, (s, p), b),
        call_ensures(text::strip_prefix, (s, p), rest),
    ensures
        b <==> exists|more: Seq<char>| s@ == #[trigger] (p@ + more),
        b <==> rest is Some,
        rest matches Some(r) ==> s@ == p@ + r@,
{
    if exists|more: Seq<char>| s@ == #[trigger] (p@ + more) {
        let more = choose|more: Seq<char>| s@ == #[trigger] (p@ + more);
        assert(s@.take(p@.len() as int) =~= p@);
    }
    if text::has_prefix(s@, p@) {
        assert(s@ =~= p@ + s@.skip(p@.len() as int));
    }
}

/// A text contains another when something stands around it.
pub proof fn law_contains(s: &str, part: &str, b: bool)
    requires
        call_ensures(text::contains, (s, part), b),
    ensures
        b <==> exists|x: Seq<char>, y: Seq<char>| s@ == #[trigger] (x + part@ + y),
{
    if exists|x: Seq<char>, y: Seq<char>| s@ == #[trigger] (x + part@ + y) {
        let (x, y) = choose|x: Seq<char>, y: Seq<char>| s@ == #[trigger] (x + part@ + y);
        assert(s@.subrange(x.len() as int, x.len() as int + part@.len()) =~= part@);
        assert(text::text_at(s@, part@, x.len() as int));
    }
    if text::has_part(s@, part@) {
        let i = choose|i: int| #[trigger] text::text_at(s@, part@, i);
        assert(s@ =~= s@.take(i) + part@ + s@.skip(i + part@.len()));
    }
}

/// In lower case a text is the same up to case, and has no ASCII capitals.
pub proof fn law_lower_case(s: &str, out: String)
    requires
        call_ensures(text::to_ascii_lowercase, (s,), out),
    ensures
        alike(out@, s@),
        forall|i: int| 0 <= i < out@.len() ==> !('A' <= #[trigger] out@[i] && out@[i] <= 'Z'),
{
    text::lemma_lower_idempotent(s@);
    text_laws::lemma_alike(out@, s@);
    assert forall|i: int| 0 <= i < out@.len() implies !('A' <= #[trigger] out@[i] && out@[i]
        <= 'Z') by {
        assert(out@[i] == text::lower_char(s@[i]));
        lemma_lower_char(s@[i]);
    }
}

proof fn lemma_lower_char(c: char)
    ensures
        !('A' <= text::lower_char(c) && text::lower_char(c) <= 'Z'),
{
    let x = c as u8;
    if 'A' <= c && c <= 'Z' {
        assert(x as int == c as int);
        assert(text::lower_char(c) as int == c as int + 32);
    }
}

/// Whether two texts agree in front of a place at which the first one ends, or
/// has the smaller character.
pub open spec fn earlier_at(a: Seq<char>, b: Seq<char>, i: int) -> bool {
    &&& 0 <= i < b.len() && i <= a.len()
    &&& a.take(i) == b.take(i)
    &&& i == a.len() || a[i] < b[i]
}

/// Texts are ordered like words in a dictionary: by the first character in
/// which they differ, and a text before what goes on from it.
pub proof fn law_text_order(a: &str, b: &str, first: bool)
    requires
        call_ensures(text::precedes, (a, b), first),
    ensures
        first <==> exists|i: int| #[trigger] earlier_at(a@, b@, i),
{
    lemma_order(a@, b@);
}

proof fn lemma_order(a: Seq<char>, b: Seq<char>)
    ensures
        text::text_before(a, b) <==> exists|i: int| #[trigger] earlier_at(a, b, i),
    decreases a.len(),
{
    if a.len() > 0 && b.len() > 0 && a[0] == b[0] {
        let x = a.drop_first();
        let y = b.drop_first();
        lemma_order(x, y);
        if text::text_before(x, y) {
            let i = choose|i: int| #[trigger] earlier_at(x, y, i);
            assert(a.take(i + 1) =~= seq![a[0]] + x.take(i));
            assert(b.take(i + 1) =~= seq![b[0]] + y.take(i));
            assert(earlier_at(a, b, i + 1));
        }
        if exists|i: int| #[trigger] earlier_at(a, b, i) {
            let i = choose|i: int| #[trigger] earlier_at(a, b, i);
            assert(i > 0);
            assert(x.take(i - 1) =~= a.take(i).drop_first());
            assert(y.take(i - 1) =~= b.take(i).drop_first());
            assert(earlier_at(x, y, i - 1));
        }
    } else {
        if exists|i: int| #[trigger] earlier_at(a, b, i) {
            let i = choose|i: int| #[trigger] earlier_at(a, b, i);
            if i > 0 && a.len() > 0 {
                assert(a.take(i)[0] == b.take(i)[0]);
            }
        }
        if text::text_before(a, b) {
            assert(a.take(0) =~= b.take(0));
            assert(earlier_at(a, b, 0));
        }
    }
}

/// The worth of a hexadecimal digit in lower case.
pub open spec fn hex_worth(c: char) -> int {
    if '0' <= c && c <= '9' {
        c as int - 0x30
    } else if 'a' <= c && c <= 'f' {
        c as int - 0x61 + 10
    } else {
        -1
    }
}

/// A byte is spelt out in two hexadecimal digits in lower case, the one of
/// greater worth first.
pub proof fn law_hex_byte(s: &mut String, b: u8, done: (), added: Seq<char>)
    requires
        call_ensures(text::push_hex_byte, (s, b), done),
        final(s)@ == old(s)@ + added,
    ensures
        added.len() == 2,
        hex_worth(added[0]) >= 0 && hex_worth(added[1]) >= 0,
        hex_worth(added[0]) * 16 + hex_worth(added[1]) == b,
{
    let n = old(s)@.len() as int;
    assert(added =~= final(s)@.skip(n));
    assert(text::hex_byte(b) =~= final(s)@.skip(n));
    lemma_hex((b / 16) as nat);
    lemma_hex((b % 16) as nat);
}

/// A digit is worth what it was spelt out for.
pub proof fn lemma_hex(d: nat)
    requires
        d < 16,
    ensures
        hex_worth(text::hex_char(d)) == d,
{
    if d < 10 {
        let c = ('0' as u8 + d) as u8;
        assert(c == 0x30 + d);
    } else {
        let c = ('a' as u8 + (d - 10)) as u8;
        assert(c == 0x61 + d - 10);
    }
}

/// A port is a number of at most 65535.
pub proof fn law_port(s: &str, n: Option<u64>, p: Option<u16>)
    requires
        call_ensures(text::parse_port, (s,), p),
        call_ensures(text::parse_number, (s, 65535), n),
    ensures
        p is Some <==> n is Some,
        p matches Some(x) ==> x == n->0,
{
}

/// A number of two bytes is read as it is written, most significant first.
pub proof fn law_two_bytes(out: &mut Vec<u8>, n: u16, hi: u8, lo: u8, done: (), back: u16)
    requires
        call_ensures(octets::push_be16, (out, n), done),
        final(out)@ == old(out)@ + seq![hi, lo],
        call_ensures(octets::read_be16, (hi, lo), back),
    ensures
        hi * 256 + lo == n,
        back == n,
{
    let k = old(out)@.len() as int;
    assert(final(out)@.skip(k) =~= seq![hi, lo]);
    assert(final(out)@.skip(k) =~= octets::be16_bytes(n));
    assert(seq![hi, lo][0] == hi && seq![hi, lo][1] == lo);
    assert(n / 256 < 256);
}

/// Words with a space between each two are the words.
pub proof fn law_words(s: &str, words: Seq<Seq<char>>, out: Vec<String>)
    requires
        call_ensures(text::split_whitespace, (s,), out),
        forall|i: int|
            0 <= i < words.len() ==> (#[trigger] words[i]).len() > 0 && all_visible(words[i]),
        s@ == joined_by(words, ' '),
    ensures
        text::texts(out@) == words,
{
    lemma_words(words);
}

proof fn lemma_words(words: Seq<Seq<char>>)
    requires
        forall|i: int|
            0 <= i < words.len() ==> (#[trigger] words[i]).len() > 0 && all_visible(words[i]),
    ensures
        text::words_of(joined_by(words, ' ')) == words,
    decreases words.len(),
{
    if words.len() == 0 {
        assert(words =~= Seq::empty());
    } else {
        let w = words[0];
        let all = joined_by(words, ' ');
        assert(w.len() > 0 && all_visible(w));
        if words.len() == 1 {
            text_laws::lemma_one_word(w, Seq::empty());
            assert(w + Seq::<char>::empty() =~= w);
            assert(text::words_of(Seq::<char>::empty()) =~= Seq::empty());
            assert(words =~= seq![w] + Seq::<Seq<char>>::empty());
        } else {
            let rest = words.drop_first();
            assert forall|i: int| 0 <= i < rest.len() implies (#[trigger] rest[i]).len() > 0
                && all_visible(rest[i]) by {
                assert(rest[i] == words[i + 1]);
            }
            lemma_words(rest);
            let tail = joined_by(rest, ' ');
            let behind = seq![' '] + tail;
            text_laws::lemma_one_word(w, behind);
            assert(all =~= w + behind);
            assert(behind[0] == ' ');
            text_laws::lemma_space(' ');
            assert(behind.drop_first() =~= tail);
            assert(text::words_of(behind) == text::words_of(tail));
            assert(words =~= seq![w] + rest);
        }
    }
}

} // verus!
