//! Reading numbers, and saying why a text is none.
use crate::text;
use vstd::prelude::*;

verus! {

/// Why a text is no number.
#[derive(Clone, Copy, Debug, PartialEq, Eq, Structural)]
pub enum NumberFault {
    Empty,
    InvalidDigit,
    TooLarge,
}

impl NumberFault {
    /// What went wrong, in words.
    pub open spec fn words(self) -> Seq<char> {
        match self {
            NumberFault::Empty => "cannot parse integer from empty string"@,
            NumberFault::InvalidDigit => "invalid digit found in string"@,
            NumberFault::TooLarge => "number too large to fit in target type"@,
        }
    }

    /// What went wrong, in words.
    pub fn text(self) -> (out: &'static str)
        ensures
            out@ == self.words(),
    {
        match self {
            NumberFault::Empty => "cannot parse integer from empty string",
            NumberFault::InvalidDigit => "invalid digit found in string",
            NumberFault::TooLarge => "number too large to fit in target type",
        }
    }
}

/// The value of a digit, decimal or hexadecimal.
pub open spec fn digit_of(c: char) -> Option<nat> {
    if '0' <= c && c <= '9' {
        Some((c as nat - '0' as nat) as nat)
    } else if 'a' <= c && c <= 'f' {
        Some((c as nat - 'a' as nat + 10) as nat)
    } else if 'A' <= c && c <= 'F' {
        Some((c as nat - 'A' as nat + 10) as nat)
    } else {
        None
    }
}

/// The number that digits write behind a number read before. The first
/// character that is no digit, or at which the number grows too large, decides
/// what went wrong.
pub open spec fn digits_in(s: Seq<char>, radix: nat, before: nat, max: nat) -> Result<
    nat,
    NumberFault,
>
    decreases s.len(),
{
    if s.len() == 0 {
        Ok(before)
    } else {
        match digit_of(s[0]) {
            None => Err(NumberFault::InvalidDigit),
            Some(d) => if d >= radix {
                Err(NumberFault::InvalidDigit)
            } else if before * radix + d > max {
                Err(NumberFault::TooLarge)
            } else {
                digits_in(s.drop_first(), radix, before * radix + d, max)
            },
        }
    }
}

/// The number that a text is, with a plus before it or not.
pub open spec fn number_in(s: Seq<char>, radix: nat, max: nat) -> Result<nat, NumberFault> {
    if s.len() == 0 {
        Err(NumberFault::Empty)
    } else if s.len() > 1 && s[0] == '+' {
        digits_in(s.drop_first(), radix, 0, max)
    } else {
        digits_in(s, radix, 0, max)
    }
}

fn digit_value(c: char) -> (d: Option<u64>)
    ensures
        match d {
            Some(v) => digit_of(c) == Some(v as nat),
            None => digit_of(c) is None,
        },
{
    if '0' <= c && c <= '9' {
        Some((c as u32 - '0' as u32) as u64)
    } else if 'a' <= c && c <= 'f' {
        Some((c as u32 - 'a' as u32 + 10) as u64)
    } else if 'A' <= c && c <= 'F' {
        Some((c as u32 - 'A' as u32 + 10) as u64)
    } else {
        None
    }
}

/// Reads a number that is at most `max`.
pub fn parse_radix(s: &str, radix: u64, max: u64) -> (out: Result<u64, NumberFault>)
    ensures
        match out {
            Ok(n) => number_in(s@, radix as nat, max as nat) == Ok::<nat, NumberFault>(n as nat)
                && n <= max,
            Err(e) => number_in(s@, radix as nat, max as nat) == Err::<nat, NumberFault>(e),
        },
{
    let chars = text::chars_of(s);
    let n: usize = chars.len();
    if n == 0 {
        return Err(NumberFault::Empty);
    }
    let from: usize = if n > 1 && chars[0] == '+' {
        1
    } else {
        0
    };
    let mut value: u64 = 0;
    let mut i: usize = from;
    proof {
        assert(s@.skip(0) =~= s@);
        assert(s@.skip(1) =~= s@.drop_first());
    }
    while i < n
        invariant
            chars@ == s@,
            n == s@.len(),
            i <= n,
            value <= max,
            number_in(s@, radix as nat, max as nat) == digits_in(
                s@.skip(i as int),
                radix as nat,
                value as nat,
                max as nat,
            ),
        decreases n - i,
    {
        assert(s@.skip(i as int).drop_first() =~= s@.skip(i + 1));
        assert(s@.skip(i as int)[0] == s@[i as int]);
        match digit_value(chars[i]) {
            None => {
                return Err(NumberFault::InvalidDigit);
            },
            Some(d) => {
                if d >= radix {
                    return Err(NumberFault::InvalidDigit);
                }
                match value.checked_mul(radix) {
                    None => {
                        return Err(NumberFault::TooLarge);
                    },
                    Some(v) => match v.checked_add(d) {
                        None => {
                            return Err(NumberFault::TooLarge);
                        },
                        Some(w) => {
                            if w > max {
                                return Err(NumberFault::TooLarge);
                            }
                            value = w;
                        },
                    },
                }
            },
        }
        i += 1;
    }
    Ok(value)
}

} // verus!
