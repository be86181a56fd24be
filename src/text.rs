//! Character-level helpers shared by the token model and the scanner.
use vstd::prelude::*;

verus! {

/// Whether the character has the Unicode `Alphabetic` property.
pub uninterp spec fn alphabetic(c: char) -> bool;

/// Whether the character is alphabetic or has a Unicode numeric category.
pub uninterp spec fn alphanumeric(c: char) -> bool;

/// An ASCII decimal digit.
pub open spec fn is_digit(c: char) -> bool {
    '0' <= c && c <= '9'
}

/// An ASCII letter.
pub open spec fn is_ascii_letter(c: char) -> bool {
    ('a' <= c && c <= 'z') || ('A' <= c && c <= 'Z')
}

/// A character that may begin a word: alphabetic, which among ASCII
/// characters means a letter.
pub open spec fn word_start(c: char) -> bool {
    if c <= '\x7f' {
        is_ascii_letter(c)
    } else {
        alphabetic(c)
    }
}

/// A character that may continue a word: alphanumeric, which among ASCII
/// characters means a letter or a digit.
pub open spec fn word_char(c: char) -> bool {
    if c <= '\x7f' {
        is_ascii_letter(c) || is_digit(c)
    } else {
        alphanumeric(c)
    }
}

/// Relies on `char::is_alphabetic`, whose answer depends on the character
/// alone; among ASCII characters exactly the letters are alphabetic (std
/// answers `'a'..='z' | 'A'..='Z'` directly and asks the Unicode tables only
/// above `'\x7f'`).
#[verifier::external_body]
pub(crate) fn is_alphabetic(c: char) -> (r: bool)
    ensures
        r == alphabetic(c),
        r == word_start(c),
{
    c.is_alphabetic()
}

/// Relies on `char::is_alphanumeric` (`is_alphabetic() || is_numeric()`),
/// whose answer depends on the character alone; among ASCII characters
/// exactly the letters and the digits `'0'..='9'` qualify.
#[verifier::external_body]
pub(crate) fn is_alphanumeric(c: char) -> (r: bool)
    ensures
        r == alphanumeric(c),
        r == word_char(c),
{
    c.is_alphanumeric()
}

/// Relies on `String::push`: the character is appended at the end.
#[verifier::external_body]
pub(crate) fn push_char(s: &mut String, c: char)
    ensures
        final(s)@ == old(s)@.push(c),
{
    s.push(c)
}

/// A decimal digit test on a character (`char::is_digit` with radix ten).
pub(crate) fn digit(c: char) -> (r: bool)
    ensures
        r == is_digit(c),
{
    '0' <= c && c <= '9'
}

/// The character of a decimal digit `d < 10`.
pub open spec fn digit_char(d: nat) -> char {
    (d + 48) as char
}

/// The decimal numeral of `n`, without leading zeros.
pub open spec fn decimal(n: nat) -> Seq<char>
    decreases n,
{
    if n < 10 {
        seq![digit_char(n)]
    } else {
        decimal(n / 10).push(digit_char(n % 10))
    }
}

/// Append the decimal numeral of `n` to `s`.
pub(crate) fn push_decimal(s: &mut String, n: usize)
    ensures
        final(s)@ == old(s)@ + decimal(n as nat),
    decreases n,
{
    if n >= 10 {
        push_decimal(s, n / 10);
    }
    let d: u8 = (n % 10) as u8;
    push_char(s, (d + 48) as char);
    proof {
        assert(old(s)@ + decimal(n as nat) =~= old(s)@ + if n < 10 {
            seq![digit_char(n as nat)]
        } else {
            decimal((n / 10) as nat).push(digit_char((n % 10) as nat))
        });
    }
}

} // verus!
