//! What holds of every text that is taken apart or put together.
use crate::text;
use vstd::prelude::*;

verus! {

/// Whether a character is white space.
pub open spec fn blank(c: char) -> bool {
    ||| c == ' ' || c == '\t' || c == '\n' || c == '\r' || c == '\u{b}' || c == '\u{c}'
    ||| c == '\u{85}' || c == '\u{a0}' || c == '\u{1680}'
    ||| '\u{2000}' <= c && c <= '\u{200a}'
    ||| c == '\u{2028}' || c == '\u{2029}' || c == '\u{202f}' || c == '\u{205f}' || c
        == '\u{3000}'
}

/// Whether a character is not white space.
pub open spec fn visible(c: char) -> bool {
    !blank(c)
}

/// Whether a text has visible characters alone.
pub open spec fn all_visible(s: Seq<char>) -> bool {
    forall|i: int| 0 <= i < s.len() ==> visible(#[trigger] s[i])
}

/// Whether a text is made of white space alone.
pub open spec fn all_blank(s: Seq<char>) -> bool {
    forall|i: int| 0 <= i < s.len() ==> !visible(#[trigger] s[i])
}

/// The number that some digits write.
pub open spec fn worth(digits: Seq<char>) -> int
    decreases digits.len(),
{
    if digits.len() == 0 {
        0
    } else {
        10 * worth(digits.drop_last()) + (digits.last() as int - 0x30)
    }
}

/// Whether a text has digits alone.
pub open spec fn all_numerals(s: Seq<char>) -> bool {
    forall|i: int| 0 <= i < s.len() ==> 0x30 <= (#[trigger] s[i]) as int <= 0x39
}

proof fn lemma_digit(d: nat)
    requires
        d < 10,
    ensures
        text::digit_char(d) as int == 0x30 + d,
{
    let c = ('0' as u8 + d) as u8;
    assert(c == 0x30 + d);
}

/// White space is what is taken for it.
pub proof fn lemma_space(c: char)
    ensures
        text::is_space(c) == blank(c),
{
}

/// A number is written in digits, most significant first, without zeros in
/// front.
pub proof fn law_decimal(n: nat)
    ensures
        text::decimal(n).len() > 0,
        all_numerals(text::decimal(n)),
        worth(text::decimal(n)) == n,
        text::decimal(n).len() > 1 ==> text::decimal(n)[0] != '0',
        text::decimal(n)[0] == '0' ==> n == 0,
    decreases n,
{
    let s = text::decimal(n);
    lemma_digit(n % 10);
    reveal_with_fuel(worth, 2);
    if n >= 10 {
        law_decimal(n / 10);
        assert(s.last() == text::digit_char(n % 10));
        assert(s.drop_last() =~= text::decimal(n / 10));
        assert(s[0] == text::decimal(n / 10)[0]);
        assert forall|i: int| 0 <= i < s.len() implies 0x30 <= (#[trigger] s[i]) as int <= 0x39 by {
            if i < s.len() - 1 {
                assert(s[i] == text::decimal(n / 10)[i]);
            }
        }
    } else {
        assert(s.drop_last() =~= Seq::empty());
    }
}

/// Digits that write a number within the limit are read as that number, with or
/// without a plus in front; nothing else is.
pub proof fn law_numbers_read(s: &str, max: u64, out: Option<u64>)
    requires
        call_ensures(text::parse_number, (s, max), out),
    ensures
        s@.len() > 0 && all_numerals(s@) && worth(s@) <= max ==> out is Some && out->0 == worth(s@),
        s@.len() > 0 && all_numerals(s@) && worth(s@) > max ==> out is None,
        out is Some ==> all_numerals(s@) || (s@[0] == '+' && all_numerals(s@.drop_first())),
        s@.len() == 0 ==> out is None,
{
    lemma_worth(s@);
    lemma_worth(s@.drop_first());
    if all_numerals(s@) {
        assert forall|i: int| 0 <= i < s@.len() implies text::is_digit(#[trigger] s@[i]) by {}
    }
    if out is Some {
        let d = text::without_plus(s@);
        assert forall|i: int| 0 <= i < d.len() implies 0x30 <= (#[trigger] d[i]) as int <= 0x39 by {
            assert(text::is_digit(d[i]));
        }
    }
}

/// Both ways to count digits agree.
pub proof fn lemma_worth(s: Seq<char>)
    ensures
        all_numerals(s) ==> text::digits_value(s) == worth(s),
    decreases s.len(),
{
    if s.len() > 0 {
        lemma_worth(s.drop_last());
        if all_numerals(s) {
            assert forall|i: int| 0 <= i < s.drop_last().len() implies 0x30 <= (
            #[trigger] s.drop_last()[i]) as int <= 0x39 by {
                assert(s.drop_last()[i] == s[i]);
            }
            assert(0x30 <= s[s.len() - 1] as int <= 0x39);
        }
    }
}

/// What is written is read again.
pub proof fn lemma_decimal_read(n: nat, max: nat)
    requires
        n <= max,
    ensures
        text::number_of(text::decimal(n), max) == Some(n),
{
    law_decimal(n);
    let s = text::decimal(n);
    lemma_worth(s);
    assert forall|i: int| 0 <= i < s.len() implies text::is_digit(#[trigger] s[i]) by {
        assert(0x30 <= s[i] as int <= 0x39);
    }
    assert(0x30 <= s[0] as int <= 0x39);
}

/// Visible characters are kept when a text is trimmed.
pub proof fn lemma_trim_visible(s: Seq<char>)
    requires
        s.len() > 0 ==> visible(s[0]) && visible(s.last()),
    ensures
        text::trim_of(s) == s,
{
    if s.len() > 0 {
        lemma_space(s[0]);
        lemma_space(s.last());
    }
}

/// A trimmed text is the text between white space, and has none at its ends.
pub proof fn law_trimmed(s: &str, out: String, front: Seq<char>, kept: Seq<char>, back: Seq<char>)
    requires
        call_ensures(text::trim, (s,), out),
        s@ == front + kept + back,
        all_blank(front),
        all_blank(back),
        kept.len() > 0 ==> visible(kept[0]) && visible(kept.last()),
        kept.len() == 0 ==> back.len() == 0,
    ensures
        out@ == kept,
{
    lemma_trimmed(front, kept, back);
}

/// A text between white space is what is left when it is trimmed.
pub proof fn lemma_trimmed(front: Seq<char>, kept: Seq<char>, back: Seq<char>)
    requires
        all_blank(front),
        all_blank(back),
        kept.len() > 0 ==> visible(kept[0]) && visible(kept.last()),
        kept.len() == 0 ==> back.len() == 0,
    ensures
        text::trim_of(front + kept + back) == kept,
{
    lemma_trim_front(front, kept + back);
    assert(front + kept + back =~= front + (kept + back));
    if kept.len() > 0 {
        assert((kept + back)[0] == kept[0]);
        lemma_space(kept[0]);
        assert(text::trim_start_of(kept + back) == kept + back);
        lemma_trim_back(kept, back);
    } else {
        assert(kept + back =~= Seq::empty());
        assert(text::trim_start_of(kept + back) =~= Seq::empty());
    }
}

proof fn lemma_trim_front(front: Seq<char>, rest: Seq<char>)
    requires
        all_blank(front),
    ensures
        text::trim_start_of(front + rest) == text::trim_start_of(rest),
    decreases front.len(),
{
    if front.len() > 0 {
        lemma_space(front[0]);
        assert((front + rest).drop_first() =~= front.drop_first() + rest);
        assert(!visible(front[0]));
        assert forall|i: int| 0 <= i < front.drop_first().len() implies !visible(
            #[trigger] front.drop_first()[i],
        ) by {
            assert(front.drop_first()[i] == front[i + 1]);
        }
        lemma_trim_front(front.drop_first(), rest);
    } else {
        assert(front + rest =~= rest);
    }
}

proof fn lemma_trim_back(kept: Seq<char>, back: Seq<char>)
    requires
        all_blank(back),
        kept.len() > 0,
        visible(kept.last()),
    ensures
        text::trim_end_of(kept + back) == kept,
    decreases back.len(),
{
    lemma_space((kept + back).last());
    if back.len() > 0 {
        assert((kept + back).drop_last() =~= kept + back.drop_last());
        assert(!visible(back[back.len() - 1]));
        assert forall|i: int| 0 <= i < back.drop_last().len() implies !visible(
            #[trigger] back.drop_last()[i],
        ) by {
            assert(back.drop_last()[i] == back[i]);
        }
        lemma_trim_back(kept, back.drop_last());
    } else {
        assert(kept + back =~= kept);
    }
}

/// Three visible words with single spaces between them are taken apart.
pub proof fn lemma_three_words(a: Seq<char>, b: Seq<char>, c: Seq<char>)
    requires
        a.len() > 0,
        b.len() > 0,
        c.len() > 0,
        all_visible(a),
        all_visible(b),
        all_visible(c),
    ensures
        text::words_of(a + seq![' '] + b + seq![' '] + c) == seq![a, b, c],
{
    lemma_space(' ');
    lemma_one_word(c, Seq::empty());
    lemma_one_word(b, seq![' '] + c);
    lemma_one_word(a, seq![' '] + b + seq![' '] + c);
    assert((seq![' '] + c).drop_first() =~= c);
    assert(c + Seq::<char>::empty() =~= c);
    assert((seq![' '] + b + seq![' '] + c).drop_first() =~= b + (seq![' '] + c));
    assert(a + (seq![' '] + b + seq![' '] + c) =~= a + seq![' '] + b + seq![' '] + c);
    assert(text::words_of(Seq::<char>::empty()) =~= Seq::empty());
    assert(text::words_of(seq![' '] + c) == text::words_of(c));
    assert(text::words_of(seq![' '] + b + seq![' '] + c) == text::words_of(b + (seq![' '] + c)));
    assert(text::words_of(a + seq![' '] + b + seq![' '] + c) =~= seq![a, b, c]);
}

/// A word in front of white space, or at the end, is the first one.
pub proof fn lemma_one_word(a: Seq<char>, rest: Seq<char>)
    requires
        a.len() > 0,
        all_visible(a),
        rest.len() > 0 ==> blank(rest[0]),
    ensures
        text::words_of(a + rest) == seq![a] + text::words_of(rest),
{
    lemma_word_len(a, rest);
    lemma_space(a[0]);
    assert(visible(a[0]));
    assert((a + rest)[0] == a[0]);
    assert((a + rest).take(a.len() as int) =~= a);
    assert((a + rest).skip(a.len() as int) =~= rest);
}

proof fn lemma_word_len(a: Seq<char>, rest: Seq<char>)
    requires
        all_visible(a),
        rest.len() > 0 ==> blank(rest[0]),
    ensures
        text::word_len(a + rest) == a.len(),
    decreases a.len(),
{
    if a + rest != Seq::<char>::empty() {
        lemma_space((a + rest)[0]);
    }
    if a.len() > 0 {
        assert(visible(a[0]));
        assert((a + rest).drop_first() =~= a.drop_first() + rest);
        assert forall|i: int| 0 <= i < a.drop_first().len() implies visible(
            #[trigger] a.drop_first()[i],
        ) by {
            assert(a.drop_first()[i] == a[i + 1]);
        }
        lemma_word_len(a.drop_first(), rest);
    } else {
        assert(a + rest =~= rest);
    }
}

/// Each line with its end.
pub open spec fn with_ends(lines: Seq<Seq<char>>) -> Seq<char>
    decreases lines.len(),
{
    if lines.len() == 0 {
        Seq::empty()
    } else {
        with_ends(lines.drop_last()) + lines.last() + seq!['\r', '\n']
    }
}

/// The same, from the front.
pub proof fn lemma_with_ends_front(lines: Seq<Seq<char>>)
    requires
        lines.len() > 0,
    ensures
        with_ends(lines) == lines[0] + seq!['\r', '\n'] + with_ends(lines.drop_first()),
    decreases lines.len(),
{
    if lines.len() == 1 {
        assert(lines.drop_last() =~= Seq::empty());
        assert(lines.drop_first() =~= Seq::empty());
        assert(with_ends(lines) =~= lines[0] + seq!['\r', '\n'] + with_ends(lines.drop_first()));
    } else {
        lemma_with_ends_front(lines.drop_last());
        assert(lines.drop_last().drop_first() =~= lines.drop_first().drop_last());
        assert(with_ends(lines) =~= lines[0] + seq!['\r', '\n'] + with_ends(lines.drop_first()));
    }
}

/// Lines without carriage returns are taken apart at their ends.
pub proof fn lemma_crlf_lines(lines: Seq<Seq<char>>, rest: Seq<char>)
    requires
        forall|i: int| 0 <= i < lines.len() ==> !(#[trigger] lines[i]).contains('\r'),
    ensures
        text::split_crlf_of(with_ends(lines) + rest) == lines + text::split_crlf_of(rest),
    decreases lines.len(),
{
    if lines.len() == 0 {
        assert(with_ends(lines) + rest =~= rest);
        assert(lines + text::split_crlf_of(rest) =~= text::split_crlf_of(rest));
    } else {
        lemma_with_ends_front(lines);
        let first = lines[0];
        let more = with_ends(lines.drop_first()) + rest;
        let whole = with_ends(lines) + rest;
        assert(whole =~= first + seq!['\r', '\n'] + more);
        lemma_first_crlf(first, more);
        assert(whole.take(first.len() as int) =~= first);
        assert(whole.skip(first.len() as int + 2) =~= more);
        lemma_crlf_lines(lines.drop_first(), rest);
        assert(lines =~= seq![first] + lines.drop_first());
        assert(lines + text::split_crlf_of(rest) =~= seq![first] + (lines.drop_first()
            + text::split_crlf_of(rest)));
    }
}

proof fn lemma_first_crlf(first: Seq<char>, more: Seq<char>)
    requires
        !first.contains('\r'),
    ensures
        text::first_crlf(first + seq!['\r', '\n'] + more) == first.len(),
    decreases first.len(),
{
    let whole = first + seq!['\r', '\n'] + more;
    if first.len() > 0 {
        assert(first.contains(first[0]));
        assert(whole.drop_first() =~= first.drop_first() + seq!['\r', '\n'] + more);
        assert(!first.drop_first().contains('\r')) by {
            if first.drop_first().contains('\r') {
                let i = choose|i: int|
                    0 <= i < first.drop_first().len() && first.drop_first()[i] == '\r';
                assert(first[i + 1] == '\r');
            }
        }
        lemma_first_crlf(first.drop_first(), more);
    }
}

/// What stands behind the last separator is one of the pieces.
pub proof fn lemma_last_piece(a: Seq<char>, c: char, b: Seq<char>)
    requires
        !b.contains(c),
    ensures
        text::split_of(a + seq![c] + b, c).last() == b,
        text::split_of(b, c) == seq![b],
        text::split_of(a + seq![c] + b, c).len() > 0,
    decreases a.len(),
{
    let whole = a + seq![c] + b;
    text::lemma_first_of(whole, c);
    text::lemma_first_of(b, c);
    let n = text::first_of(whole, c);
    assert(whole[a.len() as int] == c);
    assert(whole.contains(c));
    assert(n <= a.len()) by {
        if n > a.len() {
            assert(whole[a.len() as int] != c);
        }
    }
    let rest = whole.skip(n + 1);
    if n == a.len() {
        assert(rest =~= b);
    } else {
        lemma_last_piece(a.skip(n + 1), c, b);
        assert(rest =~= a.skip(n + 1) + seq![c] + b);
    }
    let more = text::split_of(rest, c);
    assert(text::split_of(whole, c) == seq![whole.take(n)] + more);
    assert((seq![whole.take(n)] + more).last() == more.last());
}

/// What stands in front of the first separator is the first piece.
pub proof fn lemma_first_piece(a: Seq<char>, c: char, b: Seq<char>)
    requires
        !a.contains(c),
    ensures
        text::split_of(a + seq![c] + b, c)[0] == a,
        text::split_of(a, c) == seq![a],
{
    let whole = a + seq![c] + b;
    text::lemma_first_of(a, c);
    assert forall|i: int| 0 <= i < a.len() implies #[trigger] whole[i] != c by {
        assert(a.contains(a[i]));
    }
    text::lemma_first_of_is(whole, c, a.len() as int);
    assert(whole.take(a.len() as int) =~= a);
}

/// The last place of a character in front of text without it.
pub proof fn lemma_last_of(a: Seq<char>, c: char, b: Seq<char>)
    requires
        !b.contains(c),
    ensures
        text::last_of(a + seq![c] + b, c) == a.len(),
    decreases b.len(),
{
    let whole = a + seq![c] + b;
    if b.len() > 0 {
        assert(b.contains(b[b.len() - 1]));
        assert(whole.drop_last() =~= a + seq![c] + b.drop_last());
        assert(!b.drop_last().contains(c)) by {
            if b.drop_last().contains(c) {
                let i = choose|i: int| 0 <= i < b.drop_last().len() && b.drop_last()[i] == c;
                assert(b[i] == c);
            }
        }
        lemma_last_of(a, c, b.drop_last());
    }
}

/// A character that does not occur has no last place.
pub proof fn lemma_last_of_none(a: Seq<char>, c: char)
    requires
        !a.contains(c),
    ensures
        text::last_of(a, c) == -1,
    decreases a.len(),
{
    if a.len() > 0 {
        assert(a.contains(a[a.len() - 1]));
        assert(!a.drop_last().contains(c)) by {
            if a.drop_last().contains(c) {
                let i = choose|i: int| 0 <= i < a.drop_last().len() && a.drop_last()[i] == c;
                assert(a[i] == c);
            }
        }
        lemma_last_of_none(a.drop_last(), c);
    }
}

/// Texts are joined as they are.
pub proof fn law_joined(a: &str, b: &str, c: &str, two: String, three: String)
    requires
        call_ensures(text::join2, (a, b), two),
        call_ensures(text::join3, (a, b, c), three),
    ensures
        two@ == a@ + b@,
        three@ == a@ + b@ + c@,
{
}

/// Whether two texts differ at most in the case of ASCII letters.
pub open spec fn alike(a: Seq<char>, b: Seq<char>) -> bool {
    a.len() == b.len() && forall|i: int| 0 <= i < a.len() ==> same_letter(#[trigger] a[i], b[i])
}

/// Two texts are the same up to case exactly where they differ at most in the
/// case of ASCII letters.
pub proof fn law_same_up_to_case(a: &str, b: &str, same: bool)
    requires
        call_ensures(text::same_ignoring_case, (a, b), same),
    ensures
        same <==> alike(a@, b@),
{
    lemma_alike(a@, b@);
}

pub proof fn lemma_alike(a: Seq<char>, b: Seq<char>)
    ensures
        alike(a, b) <==> text::ascii_lower(a) == text::ascii_lower(b),
{
    let x = text::ascii_lower(a);
    let y = text::ascii_lower(b);
    if x == y {
        assert(a.len() == x.len() && b.len() == y.len());
        assert forall|i: int| 0 <= i < a.len() implies same_letter(#[trigger] a[i], b[i]) by {
            assert(x[i] == y[i]);
            lemma_same_letter(a[i], b[i]);
        }
    }
    if alike(a, b) {
        assert forall|i: int| 0 <= i < x.len() implies x[i] == y[i] by {
            assert(same_letter(a[i], b[i]));
            lemma_same_letter(a[i], b[i]);
        }
        assert(x =~= y);
    }
}

/// Whether two characters are equal, or one ASCII letter in both cases.
pub open spec fn same_letter(a: char, b: char) -> bool {
    ||| a == b
    ||| 'A' <= a && a <= 'Z' && b as int == a as int + 32
    ||| 'A' <= b && b <= 'Z' && a as int == b as int + 32
}

pub proof fn lemma_same_letter(a: char, b: char)
    ensures
        same_letter(a, b) <==> text::lower_char(a) == text::lower_char(b),
{
    let x = a as u8;
    let y = b as u8;
    if 'A' <= a && a <= 'Z' {
        assert(x as int == a as int);
        assert(text::lower_char(a) as int == a as int + 32);
    }
    if 'A' <= b && b <= 'Z' {
        assert(y as int == b as int);
        assert(text::lower_char(b) as int == b as int + 32);
    }
}

} // verus!
