//! Byte classes: which bytes are blanks, letters, digits, and which may
//! stand in a word.

use vstd::prelude::*;

use super::bytes::{
    CARRIAGE_RETURN, DIGIT_0, DIGIT_9, FORM_FEED, LINE_FEED, LOWER_A, LOWER_Z, SPACE, TAB,
    UNDERSCORE, UPPER_A, UPPER_Z,
};

verus! {

/// A blank: space, tab, line feed, form feed or carriage return.
pub open spec fn is_space_byte(c: u8) -> bool {
    c == SPACE || c == TAB || c == LINE_FEED || c == FORM_FEED || c == CARRIAGE_RETURN
}

/// An ASCII letter, `A` to `Z` or `a` to `z`.
pub open spec fn is_alpha_byte(c: u8) -> bool {
    (UPPER_A <= c && c <= UPPER_Z) || (LOWER_A <= c && c <= LOWER_Z)
}

/// An ASCII digit, `0` to `9`.
pub open spec fn is_digit_byte(c: u8) -> bool {
    DIGIT_0 <= c && c <= DIGIT_9
}

/// A byte that may stand in a word: a letter, a digit or an underscore.
pub open spec fn is_word_byte(c: u8) -> bool {
    c == UNDERSCORE || is_alpha_byte(c) || is_digit_byte(c)
}

/// Whether every byte of `s` is a blank.
pub open spec fn all_blanks(s: Seq<u8>) -> bool {
    forall|i: int| 0 <= i < s.len() ==> is_space_byte(#[trigger] s[i])
}

/// Whether every byte of `s` is a digit.
pub open spec fn all_digits(s: Seq<u8>) -> bool {
    forall|i: int| 0 <= i < s.len() ==> is_digit_byte(#[trigger] s[i])
}

/// Whether `s` is a word: a letter, then letters, digits and underscores.
pub open spec fn is_word(s: Seq<u8>) -> bool {
    &&& s.len() > 0
    &&& is_alpha_byte(s[0])
    &&& forall|i: int| 0 <= i < s.len() ==> is_word_byte(#[trigger] s[i])
}

/// Whether `s` is a number: one digit or more.
pub open spec fn is_number(s: Seq<u8>) -> bool {
    s.len() > 0 && all_digits(s)
}

/// The classes of bytes of which the scanner reads runs.
pub enum ByteClass {
    Space,
    Word,
    Digit,
}

impl ByteClass {
    /// Whether `c` belongs to the class.
    pub open spec fn has(self, c: u8) -> bool {
        match self {
            ByteClass::Space => is_space_byte(c),
            ByteClass::Word => is_word_byte(c),
            ByteClass::Digit => is_digit_byte(c),
        }
    }
}

/// Whether `c` is a blank.
pub fn is_ascii_whitespace(c: u8) -> (b: bool)
    ensures
        b == is_space_byte(c),
{
    c == SPACE || c == TAB || c == LINE_FEED || c == FORM_FEED || c == CARRIAGE_RETURN
}

/// Whether `c` is an ASCII letter.
pub fn is_ascii_alphabetic(c: u8) -> (b: bool)
    ensures
        b == is_alpha_byte(c),
{
    (UPPER_A <= c && c <= UPPER_Z) || (LOWER_A <= c && c <= LOWER_Z)
}

/// Whether `c` is an ASCII digit.
pub fn is_ascii_digit(c: u8) -> (b: bool)
    ensures
        b == is_digit_byte(c),
{
    DIGIT_0 <= c && c <= DIGIT_9
}

/// Whether `c` may stand in a word: a letter, a digit or an underscore.
pub fn is_valid_ident(c: u8) -> (b: bool)
    ensures
        b == is_word_byte(c),
{
    return c == UNDERSCORE || is_ascii_alphabetic(c) || is_ascii_digit(c);
}

} // verus!
