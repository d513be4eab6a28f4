//! USB HID keyboard output.
//!
//! Boot keyboard reports (8 bytes: modifiers, reserved, six keys). One
//! romaji letter is one stroke: a press report, then a release report.
use vstd::prelude::*;

use crate::hid::KeyPress;

verus! {

/// Standard USB HID boot keyboard report descriptor.
pub const KEYBOARD_REPORT_DESCRIPTOR: [u8; 45] = [
    0x05, 0x01,  // Usage Page (Generic Desktop)
    0x09, 0x06,  // Usage (Keyboard)
    0xA1, 0x01,  // Collection (Application)
    0x05, 0x07,  //   Usage Page (Keyboard)
    0x19, 0xE0,  //   Usage Minimum (LeftControl)
    0x29, 0xE7,  //   Usage Maximum (Right GUI)
    0x15, 0x00,  //   Logical Minimum (0)
    0x25, 0x01,  //   Logical Maximum (1)
    0x75, 0x01,  //   Report Size (1)
    0x95, 0x08,  //   Report Count (8)
    0x81, 0x02,  //   Input (Data,Var,Abs) ; modifier byte
    0x95, 0x01,  //   Report Count (1)
    0x75, 0x08,  //   Report Size (8)
    0x81, 0x01,  //   Input (Const) ; reserved byte
    0x95, 0x06,  //   Report Count (6)
    0x75, 0x08,  //   Report Size (8)
    0x15, 0x00,  //   Logical Minimum (0)
    0x25, 0xFF,  //   Logical Maximum (255)
    0x05, 0x07,  //   Usage Page (Keyboard)
    0x19, 0x00,  //   Usage Minimum (0)
    0x29, 0xFF,  //   Usage Maximum (255)
    0x81, 0x00,  //   Input (Data,Array) ; key array
    0xC0,  // End Collection
];

/// Usage of the left Shift key, for sending Shift on its own.
pub const LEFT_SHIFT: u8 = 0xE1;

/// The report pressing one key: modifiers, reserved, the key, no others.
pub open spec fn report_of(key: KeyPress) -> Seq<u8> {
    seq![key.modifiers, 0, key.usage, 0, 0, 0, 0, 0]
}

/// The report pressing `key`.
pub fn report_for(key: KeyPress) -> (r: [u8; 8])
    ensures
        r@ == report_of(key),
{
    let mut r = [0u8; 8];
    r[0] = key.modifiers;
    r[2] = key.usage;
    assert(r@ =~= report_of(key));
    r
}

/// The report releasing all keys.
pub fn release_report() -> (r: [u8; 8])
    ensures
        r@ == Seq::new(8, |i: int| 0u8),
{
    let r = [0u8; 8];
    assert(r@ =~= Seq::new(8, |i: int| 0u8));
    r
}

} // verus!
