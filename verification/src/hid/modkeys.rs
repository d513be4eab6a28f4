//! Bits of the HID modifier byte (first byte of a keyboard report).
use vstd::prelude::*;

verus! {

pub const CTRL: u8 = 0x01;
pub const SHIFT: u8 = 0x02;
pub const ALT: u8 = 0x04;
pub const GUI: u8 = 0x08;

} // verus!
