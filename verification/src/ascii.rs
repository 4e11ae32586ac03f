//! The ASCII characters that the library's texts are made of.

use vstd::prelude::*;

verus! {

pub const PLUS: u8 = 0x2b;

pub const COMMA: u8 = 0x2c;

pub const MINUS: u8 = 0x2d;

pub const PERIOD: u8 = 0x2e;

pub const ZERO: u8 = 0x30;

pub const FIVE: u8 = 0x35;

pub const NINE: u8 = 0x39;

pub const COLON: u8 = 0x3a;

pub const LETTER_P: u8 = 0x50;

pub const LETTER_S: u8 = 0x53;

pub const LETTER_T: u8 = 0x54;

pub const LETTER_W: u8 = 0x57;

pub const LETTER_Z: u8 = 0x5a;

/// What a capital letter lacks to its small letter.
pub const SMALL: u8 = 0x20;

} // verus!
