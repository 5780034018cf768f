//! Named ASCII codes for the bytes the console grammar mentions.
use vstd::prelude::*;

verus! {

pub const TAB: u8 = 9;

pub const NL: u8 = 10;

pub const CR: u8 = 13;

pub const SP: u8 = 32;

pub const QUOTE: u8 = 34;

pub const STAR: u8 = 42;

pub const PLUS: u8 = 43;

pub const COMMA: u8 = 44;

pub const MINUS: u8 = 45;

pub const DOT: u8 = 46;

pub const D0: u8 = 48;

pub const D9: u8 = 57;

pub const COLON: u8 = 58;

pub const EQ: u8 = 61;

pub const UP_A: u8 = 65;

pub const UP_B: u8 = 66;

pub const UP_F: u8 = 70;

pub const UP_K: u8 = 75;

pub const UP_M: u8 = 77;

pub const UP_X: u8 = 88;

pub const UP_Z: u8 = 90;

pub const LPAR: u8 = 40;

pub const RPAR: u8 = 41;

pub const LO_A: u8 = 97;

pub const LO_B: u8 = 98;

pub const LO_F: u8 = 102;

pub const LO_K: u8 = 107;

pub const LO_M: u8 = 109;

pub const LO_X: u8 = 120;

pub const LO_Z: u8 = 122;

/// Ctrl-C, the byte the client sends to interrupt the device.
pub const CTRL_C: u8 = 3;

} // verus!
