//! The ASCII bytes that FastFs gives a meaning to.

use vstd::prelude::*;

verus! {

pub const NUL: u8 = 0x00;
pub const LINE_FEED: u8 = 0x0a;
pub const CARRIAGE_RETURN: u8 = 0x0d;
pub const SPACE: u8 = 0x20;
pub const EXCLAMATION: u8 = 0x21;
pub const HASH: u8 = 0x23;
pub const STAR: u8 = 0x2a;
pub const COMMA: u8 = 0x2c;
pub const HYPHEN: u8 = 0x2d;
pub const DOT: u8 = 0x2e;
pub const SLASH: u8 = 0x2f;
pub const COLON: u8 = 0x3a;
pub const QUESTION: u8 = 0x3f;
pub const OPEN_BRACKET: u8 = 0x5b;
pub const BACKSLASH: u8 = 0x5c;
pub const CLOSE_BRACKET: u8 = 0x5d;
pub const CARET: u8 = 0x5e;
pub const UNDERSCORE: u8 = 0x5f;
pub const OPEN_BRACE: u8 = 0x7b;
pub const CLOSE_BRACE: u8 = 0x7d;

} // verus!
