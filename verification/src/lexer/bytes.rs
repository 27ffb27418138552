//! The bytes that the scanner knows by name.

use vstd::prelude::*;

verus! {

/// A space
pub const SPACE: u8 = 0x20;

/// A tab
pub const TAB: u8 = 0x09;

/// A line feed
pub const LINE_FEED: u8 = 0x0a;

/// A form feed
pub const FORM_FEED: u8 = 0x0c;

/// A carriage return
pub const CARRIAGE_RETURN: u8 = 0x0d;

/// `.`
pub const DOT: u8 = 0x2e;

/// `,`
pub const COMMA: u8 = 0x2c;

/// `:`
pub const COLON: u8 = 0x3a;

/// `;`
pub const SEMICOLON: u8 = 0x3b;

/// `+`
pub const PLUS: u8 = 0x2b;

/// `-`
pub const MINUS: u8 = 0x2d;

/// `*`
pub const STAR: u8 = 0x2a;

/// `/`
pub const SLASH: u8 = 0x2f;

/// `(`
pub const OPEN_PAREN: u8 = 0x28;

/// `)`
pub const CLOSE_PAREN: u8 = 0x29;

/// `{`
pub const OPEN_BRACE: u8 = 0x7b;

/// `}`
pub const CLOSE_BRACE: u8 = 0x7d;

/// `=`
pub const EQUALS: u8 = 0x3d;

/// `!`
pub const BANG: u8 = 0x21;

/// `>`
pub const GREATER: u8 = 0x3e;

/// `<`
pub const LESS: u8 = 0x3c;

/// `_`
pub const UNDERSCORE: u8 = 0x5f;

/// `0`
pub const DIGIT_0: u8 = 0x30;

/// `9`
pub const DIGIT_9: u8 = 0x39;

/// `A`
pub const UPPER_A: u8 = 0x41;

/// `Z`
pub const UPPER_Z: u8 = 0x5a;

/// `a`
pub const LOWER_A: u8 = 0x61;

/// `z`
pub const LOWER_Z: u8 = 0x7a;

/// `e`
pub const LOWER_E: u8 = 0x65;

/// `f`
pub const LOWER_F: u8 = 0x66;

/// `l`
pub const LOWER_L: u8 = 0x6c;

/// `n`
pub const LOWER_N: u8 = 0x6e;

/// `t`
pub const LOWER_T: u8 = 0x74;

} // verus!
