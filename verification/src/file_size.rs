//! The sizes of attached files, as the site prints them: a decimal number, a
//! blank, and a unit (`Bytes`, `kB` or `MB`).
use vstd::prelude::*;
use crate::text::{chars_of, same_text, split, split_on, texts};

verus! {

/// What was wrong with a size text. The size still has a value.
#[derive(Debug, Clone, Copy, PartialEq, Eq, Structural)]
pub enum SizeWarning {
    /// The number cannot be read: the size counts as 0.
    BadNumber,
    /// The unit is none of `Bytes`, `kB` and `MB`: the number counts as it is.
    UnknownUnit,
    /// No unit follows the number: the number counts as it is.
    NoUnit,
}

/// A size, and what was wrong with its text.
#[derive(Debug, Clone, Copy, PartialEq, Eq, Structural)]
pub struct ParsedSize {
    pub bytes: i32,
    pub warning: Option<SizeWarning>,
}

/// Whether a character is a decimal digit.
pub open spec fn is_digit(c: char) -> bool {
    '0' <= c && c <= '9'
}

/// Whether a text is made of decimal digits only.
pub open spec fn all_digits(s: Seq<char>) -> bool {
    forall|i: int| 0 <= i < s.len() ==> is_digit(#[trigger] s[i])
}

/// The number that a text of decimal digits writes.
pub open spec fn digits_value(s: Seq<char>) -> int
    decreases s.len(),
{
    if s.len() == 0 {
        0
    } else {
        digits_value(s.drop_last()) * 10 + (s.last() as int - '0' as int)
    }
}

/// The whole part and the fraction of a decimal number: digits, then
/// optionally a point and more digits, with a digit somewhere. No sign and no
/// exponent.
pub open spec fn decimal_of(number: Seq<char>) -> Option<(Seq<char>, Seq<char>)> {
    let parts = split_on(number, '.');
    let whole = parts[0];
    let fraction = if parts.len() == 2 {
        parts[1]
    } else {
        Seq::empty()
    };
    if parts.len() <= 2 && all_digits(whole) && all_digits(fraction) && whole.len()
        + fraction.len() > 0 {
        Some((whole, fraction))
    } else {
        None
    }
}

/// The digits of a decimal number with the point moved `places` to the right:
/// the whole part, then as many digits of the fraction, with zeros where it
/// runs out.
pub open spec fn shifted(whole: Seq<char>, fraction: Seq<char>, places: nat) -> Seq<char> {
    whole + Seq::new(
        places,
        |i: int|
            if i < fraction.len() {
                fraction[i]
            } else {
                '0'
            },
    )
}

/// A decimal number times ten to the power `places`, rounded to the nearest
/// whole number, a half upwards.
pub open spec fn scaled(whole: Seq<char>, fraction: Seq<char>, places: nat) -> int {
    digits_value(shifted(whole, fraction, places)) + if fraction.len() > places
        && fraction[places as int] >= '5' {
        1int
    } else {
        0int
    }
}

/// By how many places a unit moves the point, and the warning that it calls
/// for: 3 for `kB`, 7 for `MB`, none for `Bytes`, for an unknown unit and for
/// none at all.
pub open spec fn unit_places(unit: Option<Seq<char>>) -> (nat, Option<SizeWarning>) {
    match unit {
        Some(u) => if u == "kB"@ {
            (3, None)
        } else if u == "MB"@ {
            (7, None)
        } else if u == "Bytes"@ {
            (0, None)
        } else {
            (0, Some(SizeWarning::UnknownUnit))
        },
        None => (0, Some(SizeWarning::NoUnit)),
    }
}

/// The size that a text gives, and the warning that goes with it. The text is
/// split at its blanks: the first part is the number, the second the unit.
/// The size is the number in the unit, rounded, and at most `i32::MAX`.
pub open spec fn file_size_of(text: Seq<char>) -> (int, Option<SizeWarning>) {
    let parts = split_on(text, ' ');
    let unit = if parts.len() > 1 {
        Some(parts[1])
    } else {
        None
    };
    match decimal_of(parts[0]) {
        None => (0, Some(SizeWarning::BadNumber)),
        Some((whole, fraction)) => {
            let (places, warning) = unit_places(unit);
            let size = scaled(whole, fraction, places);
            (
                if size > i32::MAX {
                    i32::MAX as int
                } else {
                    size
                },
                warning,
            )
        },
    }
}

/// The number of a text of digits is not negative.
pub proof fn lemma_digits_value_nonnegative(s: Seq<char>)
    requires
        all_digits(s),
    ensures
        digits_value(s) >= 0,
    decreases s.len(),
{
    if s.len() > 0 {
        assert(is_digit(s[s.len() - 1]));
        assert forall|i: int| 0 <= i < s.drop_last().len() implies is_digit(
            #[trigger] s.drop_last()[i],
        ) by {
            assert(s.drop_last()[i] == s[i]);
        }
        lemma_digits_value_nonnegative(s.drop_last());
    }
}

/// A size is never negative and never more than `i32::MAX`.
pub proof fn lemma_file_size_bounds(text: Seq<char>)
    ensures
        0 <= file_size_of(text).0 <= i32::MAX,
{
    let parts = split_on(text, ' ');
    match decimal_of(parts[0]) {
        None => {},
        Some((whole, fraction)) => {
            let unit = if parts.len() > 1 {
                Some(parts[1])
            } else {
                None
            };
            let places = unit_places(unit).0;
            let digits = shifted(whole, fraction, places);
            assert forall|i: int| 0 <= i < digits.len() implies is_digit(#[trigger] digits[i]) by {
                if i < whole.len() {
                    assert(digits[i] == whole[i]);
                } else if i - whole.len() < fraction.len() {
                    assert(digits[i] == fraction[i - whole.len()]);
                }
            }
            lemma_digits_value_nonnegative(digits);
        },
    }
}

/// Whether a text is made of decimal digits only.
pub fn only_digits(s: &Vec<char>) -> (r: bool)
    ensures
        r == all_digits(s@),
{
    let mut i: usize = 0;
    while i < s.len()
        invariant
            i <= s.len(),
            forall|k: int| 0 <= k < i ==> is_digit(#[trigger] s@[k]),
        decreases s.len() - i,
    {
        if !('0' <= s[i] && s[i] <= '9') {
            return false;
        }
        i += 1;
    }
    true
}

/// The value of a decimal digit.
pub fn digit(c: char) -> (d: u64)
    requires
        is_digit(c),
    ensures
        d == c as int - '0' as int,
        d <= 9,
{
    (c as u64) - ('0' as u64)
}

/// The bound at which sizes stop growing: one more than `i32::MAX`.
pub const SIZE_CAP: u64 = 0x8000_0000;

/// A number cut off at the bound of sizes.
pub open spec fn capped(n: int) -> int {
    if n > SIZE_CAP {
        SIZE_CAP as int
    } else {
        n
    }
}

/// A decimal number times ten to the power `places`, rounded, and cut off at
/// the bound of sizes.
pub fn scale(whole: &Vec<char>, fraction: &Vec<char>, places: usize) -> (r: u64)
    requires
        all_digits(whole@),
        all_digits(fraction@),
    ensures
        r == capped(scaled(whole@, fraction@, places as nat)),
{
    let ghost digits = shifted(whole@, fraction@, places as nat);
    let mut acc: u64 = 0;
    let mut i: usize = 0;
    assert(digits.take(0) == Seq::<char>::empty());
    while i < whole.len()
        invariant
            i <= whole.len(),
            all_digits(whole@),
            digits == shifted(whole@, fraction@, places as nat),
            all_digits(digits.take(i as int)),
            acc == capped(digits_value(digits.take(i as int))),
            acc <= SIZE_CAP,
        decreases whole.len() - i,
    {
        proof {
            let next = digits.take(i + 1);
            assert(next.drop_last() == digits.take(i as int));
            assert(next.last() == whole@[i as int]);
            lemma_digits_value_nonnegative(digits.take(i as int));
            assert forall|k: int| 0 <= k < next.len() implies is_digit(#[trigger] next[k]) by {
                assert(next[k] == whole@[k]);
            }
        }
        let d = digit(whole[i]);
        acc = acc * 10 + d;
        if acc > SIZE_CAP {
            acc = SIZE_CAP;
        }
        i += 1;
    }
    let mut k: usize = 0;
    while k < places
        invariant
            k <= places,
            i == whole.len(),
            all_digits(fraction@),
            digits == shifted(whole@, fraction@, places as nat),
            all_digits(digits.take(i + k)),
            acc == capped(digits_value(digits.take(i + k))),
            acc <= SIZE_CAP,
        decreases places - k,
    {
        proof {
            let next = digits.take(i + k + 1);
            assert(next.drop_last() == digits.take(i + k));
            lemma_digits_value_nonnegative(digits.take(i + k));
            assert forall|j: int| 0 <= j < next.len() implies is_digit(#[trigger] next[j]) by {
                if j < i + k {
                    assert(next[j] == digits.take(i + k)[j]);
                } else if k < fraction@.len() {
                    assert(next[j] == fraction@[k as int]);
                }
            }
        }
        let d = if k < fraction.len() {
            assert(digits[i + k] == fraction@[k as int]);
            digit(fraction[k])
        } else {
            assert(digits[i + k] == '0');
            0
        };
        acc = acc * 10 + d;
        if acc > SIZE_CAP {
            acc = SIZE_CAP;
        }
        k += 1;
    }
    assert(digits.take(i + k) == digits);
    proof {
        lemma_digits_value_nonnegative(digits);
    }
    if places < fraction.len() && fraction[places] >= '5' {
        acc = acc + 1;
        if acc > SIZE_CAP {
            acc = SIZE_CAP;
        }
    }
    acc
}

/// Reads the size of a file from its text.
pub fn parse_file_size(text: &str) -> (size: ParsedSize)
    ensures
        (size.bytes as int, size.warning) == file_size_of(text@),
        size.bytes >= 0,
{
    proof {
        lemma_file_size_bounds(text@);
    }
    let parts = split(text, ' ');
    let number = split(parts[0].as_str(), '.');
    assert(texts(parts@)[0] == parts@[0]@);
    assert(texts(number@)[0] == number@[0]@);
    if number.len() > 2 {
        return ParsedSize { bytes: 0, warning: Some(SizeWarning::BadNumber) };
    }
    let whole = chars_of(number[0].as_str());
    let fraction = if number.len() == 2 {
        assert(texts(number@)[1] == number@[1]@);
        chars_of(number[1].as_str())
    } else {
        Vec::new()
    };
    if !only_digits(&whole) || !only_digits(&fraction) || (whole.len() == 0 && fraction.len()
        == 0) {
        return ParsedSize { bytes: 0, warning: Some(SizeWarning::BadNumber) };
    }
    let (places, warning): (usize, Option<SizeWarning>) = if parts.len() > 1 {
        assert(texts(parts@)[1] == parts@[1]@);
        let unit = parts[1].as_str();
        if same_text(unit, "kB") {
            (3, None)
        } else if same_text(unit, "MB") {
            (7, None)
        } else if same_text(unit, "Bytes") {
            (0, None)
        } else {
            (0, Some(SizeWarning::UnknownUnit))
        }
    } else {
        (0, Some(SizeWarning::NoUnit))
    };
    let size = scale(&whole, &fraction, places);
    let bytes: i32 = if size > i32::MAX as u64 {
        i32::MAX
    } else {
        size as i32
    };
    ParsedSize { bytes, warning }
}

} // verus!
