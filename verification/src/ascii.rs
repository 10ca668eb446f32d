//! The ASCII bytes that the format-string grammar names.

use vstd::prelude::*;

verus! {

/// `#`
pub const HASH: u8 = 0x23;

/// `+`
pub const PLUS: u8 = 0x2b;

/// `.`
pub const DOT: u8 = 0x2e;

/// `0`
pub const ZERO: u8 = 0x30;

/// `9`
pub const NINE: u8 = 0x39;

/// `:`
pub const COLON: u8 = 0x3a;

/// `<`
pub const LESS: u8 = 0x3c;

/// `>`
pub const GREATER: u8 = 0x3e;

/// `?`
pub const QUESTION: u8 = 0x3f;

/// `E`
pub const UPPER_E: u8 = 0x45;

/// `X`
pub const UPPER_X: u8 = 0x58;

/// `^`
pub const CARET: u8 = 0x5e;

/// `b`
pub const LOWER_B: u8 = 0x62;

/// `e`
pub const LOWER_E: u8 = 0x65;

/// `o`
pub const LOWER_O: u8 = 0x6f;

/// `x`
pub const LOWER_X: u8 = 0x78;

/// `{`
pub const OPEN: u8 = 0x7b;

/// `}`
pub const CLOSE: u8 = 0x7d;

} // verus!
