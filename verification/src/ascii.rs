//! Names for the ASCII bytes the library's text formats use.

use vstd::prelude::*;

verus! {

pub const ZERO: u8 = 48;

pub const NINE: u8 = 57;

pub const LOWER_A: u8 = 97;

pub const COLON: u8 = 58;

pub const QUOTE: u8 = 34;

pub const BACKSLASH: u8 = 92;

pub const SLASH: u8 = 47;

pub const LBRACE: u8 = 123;

pub const RBRACE: u8 = 125;

pub const RBRACKET: u8 = 93;

pub const COMMA: u8 = 44;

pub const DOT: u8 = 46;

pub const MINUS: u8 = 45;

pub const PLUS: u8 = 43;

pub const SPACE: u8 = 32;

pub const HASH: u8 = 35;

pub const NEWLINE: u8 = 10;

pub const CARRIAGE: u8 = 13;

pub const EQUALS: u8 = 61;

pub const AMPERSAND: u8 = 38;

pub const QUESTION: u8 = 63;

} // verus!
