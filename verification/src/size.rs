//! Size strings: a decimal byte count with an optional binary scale suffix
//! (`k`, `m`, `g`, `t`).

use crate::text::{
    all_white_space, ascii_lower, ascii_lowercased, lemma_trim_ignores_padding,
    lemma_trim_keeps_tight, lowercase, lowercased, trim, trim_spec,
};
use vstd::prelude::*;
use vstd::string::*;
use vstd::utf8::is_ascii_chars;

verus! {

/// Why a size string was rejected.
#[derive(Clone, Copy, Debug, PartialEq, Eq, Structural)]
pub enum SizeError {
    /// The character is neither a digit nor a letter in last position.
    InvalidFormat(char),
    /// The digits are missing or their value does not fit in `usize`.
    InvalidNumber,
    /// The trailing letter is not a known scale suffix.
    InvalidScaleSuffix(char),
    /// The scaled value does not fit in `usize`.
    Overflow,
}

/// ASCII decimal digits.
pub open spec fn is_digit(c: char) -> bool {
    '0' <= c <= '9'
}

/// ASCII letters of either case.
pub open spec fn is_letter(c: char) -> bool {
    ('a' <= c <= 'z') || ('A' <= c <= 'Z')
}

/// The factor a scale suffix stands for: successive powers of 1024.
pub open spec fn multiplier(c: char) -> Option<nat> {
    if c == 'k' {
        Some(1024nat)
    } else if c == 'm' {
        Some(1024nat * 1024)
    } else if c == 'g' {
        Some(1024nat * 1024 * 1024)
    } else if c == 't' {
        Some(1024nat * 1024 * 1024 * 1024)
    } else {
        None
    }
}

/// Number of decimal digits at the front of `s`.
pub open spec fn digit_prefix_len(s: Seq<char>) -> nat
    decreases s.len(),
{
    if s.len() > 0 && is_digit(s.first()) {
        1 + digit_prefix_len(s.drop_first())
    } else {
        0
    }
}

/// The number that a string of decimal digits denotes; leading zeros are
/// allowed and the empty string denotes zero.
pub open spec fn decimal_value(digits: Seq<char>) -> nat
    decreases digits.len(),
{
    if digits.len() == 0 {
        0
    } else {
        decimal_value(digits.drop_last()) * 10 + (digits.last() as nat - '0' as nat) as nat
    }
}

/// Whether `s` consists of decimal digits only.
pub open spec fn all_digits(s: Seq<char>) -> bool {
    forall|j: int| 0 <= j < s.len() ==> is_digit(#[trigger] s[j])
}

/// The byte count for a digit string and a factor: the digits must be
/// present and fit `usize`, and so must their product with the factor.
pub open spec fn scaled_spec(digits: Seq<char>, factor: nat) -> Result<usize, SizeError> {
    if digits.len() == 0 || decimal_value(digits) > usize::MAX {
        Err(SizeError::InvalidNumber)
    } else if decimal_value(digits) * factor > usize::MAX {
        Err(SizeError::Overflow)
    } else {
        Ok((decimal_value(digits) * factor) as usize)
    }
}

/// The meaning of a trimmed, lower-cased size string: digits, then at most
/// one letter, which must come last and name a scale.
pub open spec fn parse_normalized_spec(s: Seq<char>) -> Result<usize, SizeError> {
    let n = digit_prefix_len(s) as int;
    if n == s.len() {
        scaled_spec(s, 1)
    } else if !is_letter(s[n]) || n + 1 != s.len() {
        Err(SizeError::InvalidFormat(s[n]))
    } else {
        match multiplier(s[n]) {
            Some(factor) => scaled_spec(s.take(n), factor),
            None => Err(SizeError::InvalidScaleSuffix(s[n])),
        }
    }
}

/// The meaning of a size string as a user writes it.
pub open spec fn parse_size_spec(s: Seq<char>) -> Result<usize, SizeError> {
    parse_normalized_spec(lowercased(trim_spec(s)))
}

/// The meaning of a size string whose trimmed form is ASCII.
pub open spec fn parse_ascii_spec(s: Seq<char>) -> Result<usize, SizeError> {
    parse_normalized_spec(ascii_lowercased(trim_spec(s)))
}

/// A run of `k` digits that ends the string or is followed by something
/// else is the digit prefix.
pub proof fn lemma_digit_prefix(s: Seq<char>, k: int)
    requires
        0 <= k <= s.len(),
        forall|j: int| 0 <= j < k ==> is_digit(#[trigger] s[j]),
        k == s.len() || !is_digit(s[k]),
    ensures
        digit_prefix_len(s) == k,
    decreases k,
{
    if k > 0 {
        let rest = s.drop_first();
        assert forall|j: int| 0 <= j < k - 1 implies is_digit(#[trigger] rest[j]) by {
            assert(rest[j] == s[j + 1]);
        }
        lemma_digit_prefix(rest, k - 1);
    }
}

/// Trimming and lower-casing digits with a letter behind them changes the
/// case of the letter and nothing else, and the digits are then the digit
/// prefix of the result.
proof fn lemma_normal_form(digits: Seq<char>, suffix: char)
    requires
        all_digits(digits),
        is_letter(suffix),
    ensures
        ascii_lowercased(trim_spec(digits.push(suffix))) == digits.push(ascii_lower(suffix)),
        digit_prefix_len(digits.push(ascii_lower(suffix))) == digits.len(),
        digits.push(ascii_lower(suffix)).take(digits.len() as int) == digits,
        is_letter(ascii_lower(suffix)),
{
    let s = digits.push(suffix);
    let lower = digits.push(ascii_lower(suffix));
    assert(s.first() == if digits.len() > 0 {
        digits[0]
    } else {
        suffix
    });
    lemma_trim_keeps_tight(s);
    assert(ascii_lowercased(s) =~= lower);
    lemma_digit_prefix(lower, digits.len() as int);
    assert(lower.take(digits.len() as int) =~= digits);
}

/// Digits alone denote their decimal value: nothing is scaled.
pub proof fn lemma_plain_digits(digits: Seq<char>)
    requires
        all_digits(digits),
    ensures
        parse_ascii_spec(digits) == scaled_spec(digits, 1),
        digits.len() > 0 && decimal_value(digits) <= usize::MAX ==> parse_ascii_spec(digits)
            == Ok::<usize, SizeError>(decimal_value(digits) as usize),
{
    lemma_trim_keeps_tight(digits);
    assert(ascii_lowercased(digits) =~= digits);
    lemma_digit_prefix(digits, digits.len() as int);
}

/// Digits followed by one letter denote the decimal value times the factor
/// of that letter, whichever case the letter is written in; a letter that
/// names no scale is reported in its lower-case form.
pub proof fn lemma_suffixed_digits(digits: Seq<char>, suffix: char)
    requires
        all_digits(digits),
        is_letter(suffix),
    ensures
        parse_ascii_spec(digits.push(suffix)) == match multiplier(ascii_lower(suffix)) {
            Some(factor) => scaled_spec(digits, factor),
            None => Err(SizeError::InvalidScaleSuffix(ascii_lower(suffix))),
        },
        parse_ascii_spec(digits.push(suffix)) == parse_ascii_spec(
            digits.push(ascii_lower(suffix)),
        ),
        forall|factor: nat|
            multiplier(ascii_lower(suffix)) == Some(factor) && digits.len() > 0 && decimal_value(
                digits,
            ) * factor <= usize::MAX ==> parse_ascii_spec(digits.push(suffix)) == Ok::<
                usize,
                SizeError,
            >((decimal_value(digits) * factor) as usize),
{
    let lower = ascii_lower(suffix);
    lemma_normal_form(digits, suffix);
    lemma_normal_form(digits, lower);
    assert forall|factor: nat|
        multiplier(lower) == Some(factor) && digits.len() > 0 && decimal_value(digits) * factor
            <= usize::MAX implies decimal_value(digits) <= usize::MAX by {
        assert(decimal_value(digits) <= decimal_value(digits) * factor) by (nonlinear_arith)
            requires
                factor >= 1,
        ;
    }
}

/// White space before and after a size string does not change what it
/// means.
pub proof fn lemma_padding_is_ignored(front: Seq<char>, s: Seq<char>, back: Seq<char>)
    requires
        all_white_space(front),
        all_white_space(back),
    ensures
        parse_size_spec(front + s + back) == parse_size_spec(s),
        parse_ascii_spec(front + s + back) == parse_ascii_spec(s),
{
    lemma_trim_ignores_padding(front, s, back);
}

/// Decides whether a character is an ASCII decimal digit.
pub fn digit(c: char) -> (r: bool)
    ensures
        r == is_digit(c),
{
    '0' <= c && c <= '9'
}

/// Decides whether a character is an ASCII letter.
pub fn letter(c: char) -> (r: bool)
    ensures
        r == is_letter(c),
{
    ('a' <= c && c <= 'z') || ('A' <= c && c <= 'Z')
}

/// Looks up the factor of a scale suffix. The factor is returned as `u64`
/// because the largest one does not fit a 32-bit `usize`.
pub fn scale_mult(r: char) -> (res: Result<u64, SizeError>)
    ensures
        match multiplier(r) {
            Some(m) => res == Ok::<u64, SizeError>(m as u64) && m <= u64::MAX,
            None => res == Err::<u64, SizeError>(SizeError::InvalidScaleSuffix(r)),
        },
{
    match r {
        'k' => Ok(1024),
        'm' => Ok(1024 * 1024),
        'g' => Ok(1024 * 1024 * 1024),
        't' => Ok(1024 * 1024 * 1024 * 1024),
        _ => Err(SizeError::InvalidScaleSuffix(r)),
    }
}

/// Multiplies a digit value by a scale factor, refusing a product that
/// does not fit `usize`.
pub fn scale(value: usize, factor: u64) -> (r: Result<usize, SizeError>)
    ensures
        r == if value * factor > usize::MAX {
            Err::<usize, SizeError>(SizeError::Overflow)
        } else {
            Ok::<usize, SizeError>((value * factor) as usize)
        },
{
    match (value as u64).checked_mul(factor) {
        Some(product) => {
            if product > usize::MAX as u64 {
                Err(SizeError::Overflow)
            } else {
                Ok(product as usize)
            }
        },
        None => Err(SizeError::Overflow),
    }
}

/// Parses a size string that is already trimmed and lower-cased.
pub fn parse_normalized(s: &str) -> (r: Result<usize, SizeError>)
    ensures
        r == parse_normalized_spec(s@),
{
    let len = s.unicode_len();
    let mut value: usize = 0;
    let mut fits = true;
    let mut i: usize = 0;
    for c in it: s.chars()
        invariant
            i == it.index(),
            it.seq() == s@,
            len == s@.len(),
            forall|j: int| 0 <= j < i ==> is_digit(#[trigger] s@[j]),
            fits ==> value == decimal_value(s@.take(i as int)),
            !fits ==> decimal_value(s@.take(i as int)) > usize::MAX,
    {
        if letter(c) {
            proof {
                lemma_digit_prefix(s@, i as int);
            }
            if i + 1 != len {
                return Err(SizeError::InvalidFormat(c));
            }
            match scale_mult(c) {
                Ok(m) => {
                    if i == 0 || !fits {
                        return Err(SizeError::InvalidNumber);
                    }
                    return scale(value, m);
                },
                Err(e) => {
                    return Err(e);
                },
            }
        }
        if !digit(c) {
            proof {
                lemma_digit_prefix(s@, i as int);
            }
            return Err(SizeError::InvalidFormat(c));
        }
        proof {
            assert(s@.take(i + 1).drop_last() =~= s@.take(i as int));
        }
        let d: usize = (c as u32 - '0' as u32) as usize;
        if fits {
            match value.checked_mul(10) {
                Some(tens) => match tens.checked_add(d) {
                    Some(next) => {
                        value = next;
                    },
                    None => {
                        fits = false;
                    },
                },
                None => {
                    fits = false;
                },
            }
        }
        i = i + 1;
    }
    proof {
        lemma_digit_prefix(s@, len as int);
        assert(s@.take(len as int) =~= s@);
    }
    if len == 0 || !fits {
        return Err(SizeError::InvalidNumber);
    }
    Ok(value)
}

/// Parses a size string such as `512`, `2m` or `8G` into a byte count.
/// White space around it is ignored and the suffix may be written in either
/// case.
pub fn parse_size(v: &str) -> (r: Result<usize, SizeError>)
    ensures
        r == parse_size_spec(v@),
        is_ascii_chars(trim_spec(v@)) ==> r == parse_ascii_spec(v@),
{
    let trimmed = trim(v);
    let lower = lowercase(trimmed);
    parse_normalized(lower.as_str())
}

} // verus!
