use vstd::prelude::*;

verus! {

/// `{`
pub const LEFT_BRACE: u8 = 0x7b;

/// `}`
pub const RIGHT_BRACE: u8 = 0x7d;

/// `[`
pub const LEFT_BRACKET: u8 = 0x5b;

/// `]`
pub const RIGHT_BRACKET: u8 = 0x5d;

/// `:`
pub const COLON: u8 = 0x3a;

/// `,`
pub const COMMA: u8 = 0x2c;

/// `"`
pub const QUOTE: u8 = 0x22;

/// `\`
pub const BACKSLASH: u8 = 0x5c;

/// ` `
pub const SPACE: u8 = 0x20;

/// horizontal tab
pub const TAB: u8 = 0x09;

/// line feed
pub const LINE_FEED: u8 = 0x0a;

/// carriage return
pub const CARRIAGE_RETURN: u8 = 0x0d;

/// `-`
pub const MINUS: u8 = 0x2d;

/// `0`
pub const DIGIT_ZERO: u8 = 0x30;

/// `9`
pub const DIGIT_NINE: u8 = 0x39;

} // verus!
