//! Character classes and string primitives.
//!
//! The lexer and the parser classify characters by Unicode properties and
//! build strings one character at a time.  The standard library decides
//! those properties from tables that are far too long to restate, so each of
//! them is given a name here and the rest of the crate reasons about the
//! names.  White space among the ASCII characters is the exception: it is
//! six characters, and they are written out.  Everything in this module
//! that carries `assume_specification` is taken on trust; everything else
//! is proved.

use vstd::prelude::*;

verus! {

/// Whether `c`, a character beyond ASCII, has the Unicode `White_Space`
/// property.
pub uninterp spec fn white_space(c: char) -> bool;

/// Whether `c` has the Unicode `Lowercase` property.
pub uninterp spec fn lower_case(c: char) -> bool;

/// Whether `c` has the Unicode `Uppercase` property.
pub uninterp spec fn upper_case(c: char) -> bool;

/// The Unicode lowercase equivalent of a string.
pub uninterp spec fn lowercased(s: Seq<char>) -> Seq<char>;

/// `char::is_whitespace` is a pure test of the character: it answers with
/// the `White_Space` property.  Among the ASCII characters those are the
/// space and the five controls from tab to carriage return; beyond ASCII
/// the property is what this crate calls [`white_space`].
pub assume_specification[ char::is_whitespace ](c: char) -> (r: bool)
    ensures
        r == (if c <= '\x7f' {
            is_ascii_blank(c)
        } else {
            white_space(c)
        }),
;

/// `char::is_lowercase` is a pure test of the character: it answers with
/// the `Lowercase` property, which this crate calls [`lower_case`].
pub assume_specification[ char::is_lowercase ](c: char) -> (r: bool)
    ensures
        r == lower_case(c),
;

/// `char::is_uppercase` is a pure test of the character: it answers with
/// the `Uppercase` property, which this crate calls [`upper_case`].
pub assume_specification[ char::is_uppercase ](c: char) -> (r: bool)
    ensures
        r == upper_case(c),
;

/// `str::to_lowercase` returns a fresh string that depends on the characters
/// of its argument alone; this crate calls that string [`lowercased`].
pub assume_specification[ str::to_lowercase ](s: &str) -> (r: std::string::String)
    ensures
        r@ == lowercased(s@),
;

/// `String::push` appends the one character to the end of the string and
/// leaves what was there before in place.
pub assume_specification[ std::string::String::push ](s: &mut std::string::String, c: char)
    ensures
        final(s)@ == old(s)@.push(c),
;

/// `==` on string slices holds exactly when the two hold the same
/// characters in the same order.
pub assume_specification[ <str as PartialEq>::eq ](a: &str, b: &str) -> (r: bool)
    ensures
        r == (a@ == b@),
;

/// An ASCII character that is white space: the space, the tab, the line
/// feed, the vertical tab, the form feed or the carriage return.
pub open spec fn is_ascii_blank(c: char) -> bool {
    c == ' ' || ('\t' <= c && c <= '\r')
}

/// White space: among the ASCII characters as [`is_ascii_blank`] has it,
/// beyond them as the Unicode tables have it.
pub open spec fn is_blank(c: char) -> bool {
    if c <= '\x7f' {
        is_ascii_blank(c)
    } else {
        white_space(c)
    }
}

/// One of the ten ASCII digits.
pub open spec fn is_decimal_digit(c: char) -> bool {
    '0' <= c && c <= '9'
}

/// The character that writes a number below ten.
pub open spec fn digit(n: nat) -> char {
    if n == 0 {
        '0'
    } else if n == 1 {
        '1'
    } else if n == 2 {
        '2'
    } else if n == 3 {
        '3'
    } else if n == 4 {
        '4'
    } else if n == 5 {
        '5'
    } else if n == 6 {
        '6'
    } else if n == 7 {
        '7'
    } else if n == 8 {
        '8'
    } else {
        '9'
    }
}

/// The character that writes a number below ten.
pub fn digit_char(n: usize) -> (c: char)
    requires
        n < 10,
    ensures
        c == digit(n as nat),
{
    if n == 0 {
        '0'
    } else if n == 1 {
        '1'
    } else if n == 2 {
        '2'
    } else if n == 3 {
        '3'
    } else if n == 4 {
        '4'
    } else if n == 5 {
        '5'
    } else if n == 6 {
        '6'
    } else if n == 7 {
        '7'
    } else if n == 8 {
        '8'
    } else {
        '9'
    }
}

/// Tests for an ASCII digit.
pub fn decimal_digit(c: char) -> (r: bool)
    ensures
        r == is_decimal_digit(c),
{
    '0' <= c && c <= '9'
}

} // verus!
