//! The ASCII bytes that the escape grammar, the template grammar and the
//! line splitter give a meaning to.

use vstd::prelude::*;

verus! {

/// `\0`
pub const NUL: u8 = 0x00;

/// `\t`
pub const TAB: u8 = 0x09;

/// `\n`
pub const NEWLINE: u8 = 0x0a;

/// `\r`
pub const CARRIAGE_RETURN: u8 = 0x0d;

/// `$`
pub const DOLLAR: u8 = 0x24;

/// `0`
pub const DIGIT_0: u8 = 0x30;

/// `9`
pub const DIGIT_9: u8 = 0x39;

/// `A`
pub const UPPER_A: u8 = 0x41;

/// `F`
pub const UPPER_F: u8 = 0x46;

/// `\`
pub const BACKSLASH: u8 = 0x5c;

/// `a`
pub const LOWER_A: u8 = 0x61;

/// `f`
pub const LOWER_F: u8 = 0x66;

/// `n`
pub const LOWER_N: u8 = 0x6e;

/// `r`
pub const LOWER_R: u8 = 0x72;

/// `t`
pub const LOWER_T: u8 = 0x74;

/// `u`
pub const LOWER_U: u8 = 0x75;

/// `x`
pub const LOWER_X: u8 = 0x78;

/// `{`
pub const OPEN_BRACE: u8 = 0x7b;

/// `}`
pub const CLOSE_BRACE: u8 = 0x7d;

} // verus!
