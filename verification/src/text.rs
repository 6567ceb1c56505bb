//! Character classes and small string helpers shared by the validation
//! and parsing code. All classification is over the character view of a
//! string, with ASCII ranges written out as code points.

use vstd::prelude::*;

verus! {

pub open spec fn is_ascii_char(c: char) -> bool {
    (c as u32) < 128
}

pub open spec fn is_digit_char(c: char) -> bool {
    48 <= (c as u32) && (c as u32) <= 57
}

pub open spec fn is_upper_char(c: char) -> bool {
    65 <= (c as u32) && (c as u32) <= 90
}

pub open spec fn is_lower_char(c: char) -> bool {
    97 <= (c as u32) && (c as u32) <= 122
}

pub open spec fn is_alnum_char(c: char) -> bool {
    is_digit_char(c) || is_upper_char(c) || is_lower_char(c)
}

pub open spec fn is_alpha_char(c: char) -> bool {
    is_upper_char(c) || is_lower_char(c)
}

/// The whitespace characters that separate the words of a header, and
/// that trimming strips from the ends of a field: the ASCII range of the
/// general whitespace class, vertical tab included.
pub open spec fn is_space_char(c: char) -> bool {
    c == ' ' || c == '\t' || c == '\n' || c == '\r' || (c as u32) == 11 || (c as u32) == 12
}

/// The blank characters a profile field may carry between its letters:
/// the narrow ASCII whitespace class, which leaves vertical tab out.
pub open spec fn is_blank_char(c: char) -> bool {
    c == ' ' || c == '\t' || c == '\n' || c == '\r' || (c as u32) == 12
}

/// Exec test for a digit.
pub fn char_is_digit(c: char) -> (r: bool)
    ensures
        r == is_digit_char(c),
{
    let x = c as u32;
    48 <= x && x <= 57
}

/// Exec test for an ASCII upper-case letter.
pub fn char_is_upper(c: char) -> (r: bool)
    ensures
        r == is_upper_char(c),
{
    let x = c as u32;
    65 <= x && x <= 90
}

/// Exec test for an ASCII letter or digit.
pub fn char_is_alnum(c: char) -> (r: bool)
    ensures
        r == is_alnum_char(c),
{
    let x = c as u32;
    (48 <= x && x <= 57) || (65 <= x && x <= 90) || (97 <= x && x <= 122)
}

/// Exec test for an ASCII letter.
pub fn char_is_alpha(c: char) -> (r: bool)
    ensures
        r == is_alpha_char(c),
{
    let x = c as u32;
    (65 <= x && x <= 90) || (97 <= x && x <= 122)
}

/// Exec test for separating whitespace.
pub fn char_is_space(c: char) -> (r: bool)
    ensures
        r == is_space_char(c),
{
    let x = c as u32;
    x == 32 || x == 9 || x == 10 || x == 13 || x == 11 || x == 12
}

/// Exec test for a blank character of a profile field.
pub fn char_is_blank(c: char) -> (r: bool)
    ensures
        r == is_blank_char(c),
{
    let x = c as u32;
    x == 32 || x == 9 || x == 10 || x == 13 || x == 12
}

/// String equality over character views.
pub fn str_eq(a: &str, b: &str) -> (r: bool)
    ensures
        r == (a@ == b@),
{
    let sa: String = a.to_owned();
    let sb: String = b.to_owned();
    sa == sb
}

} // verus!
