//! ASCII (romaji output) to USB HID keyboard usage IDs, and direct key presses.
//!
//! Each character becomes one `KeyPress` (usage + modifiers); assembling
//! reports is left to `usb_hid`.
use vstd::prelude::*;
use vstd::string::*;

use crate::assoc::{assoc, lookup_u8};

pub mod modkeys;

verus! {

/// Keyboard LANG1 (usage 0x90 of the HID keyboard page): kana mode,
/// which Japanese IMEs take as "IME on".
pub const HID_LANG1: u8 = 0x90;
/// Keyboard LANG2 (usage 0x91 of the HID keyboard page): alphanumeric
/// (eisu) mode, which Japanese IMEs take as "IME off".
pub const HID_LANG2: u8 = 0x91;

/// A USB HID keyboard usage ID with its modifier byte.
#[derive(Clone, Copy, Debug, PartialEq, Eq, Structural)]
pub struct KeyPress {
    pub usage: u8,
    pub modifiers: u8,
}

impl KeyPress {
    pub fn new(usage: u8, modifiers: u8) -> (r: Self)
        ensures
            r == (KeyPress { usage, modifiers }),
    {
        KeyPress { usage, modifiers }
    }

    pub fn plain(usage: u8) -> (r: Self)
        ensures
            r == (KeyPress { usage, modifiers: 0 }),
    {
        KeyPress { usage, modifiers: 0 }
    }
}

/// The key typing one ASCII character, if the romaji output uses it
/// (a-z, A-Z with Shift, 0-9, '-' and space).
pub open spec fn ascii_key(c: char) -> Option<KeyPress> {
    let u = c as u32;
    if 0x61 <= u <= 0x7a {
        Some(KeyPress { usage: (0x04 + (u - 0x61)) as u8, modifiers: 0 })
    } else if 0x41 <= u <= 0x5a {
        Some(KeyPress { usage: (0x04 + (u - 0x41)) as u8, modifiers: modkeys::SHIFT })
    } else if 0x31 <= u <= 0x39 {
        Some(KeyPress { usage: (0x1e + (u - 0x31)) as u8, modifiers: 0 })
    } else if u == 0x30 {
        Some(KeyPress { usage: 0x27, modifiers: 0 })
    } else if u == 0x2d {
        Some(KeyPress { usage: 0x2d, modifiers: 0 })
    } else if u == 0x20 {
        Some(KeyPress { usage: 0x2c, modifiers: 0 })
    } else {
        None
    }
}

/// One ASCII character to its HID key; `None` outside the supported set.
pub fn ascii_to_hid(c: char) -> (r: Option<KeyPress>)
    ensures
        r == ascii_key(c),
{
    let u = c as u32;
    if 0x61 <= u && u <= 0x7a {
        Some(KeyPress::new((0x04 + (u - 0x61)) as u8, 0))
    } else if 0x41 <= u && u <= 0x5a {
        Some(KeyPress::new((0x04 + (u - 0x41)) as u8, modkeys::SHIFT))
    } else if 0x31 <= u && u <= 0x39 {
        Some(KeyPress::new((0x1e + (u - 0x31)) as u8, 0))
    } else if u == 0x30 {
        Some(KeyPress::new(0x27, 0))
    } else if u == 0x2d {
        Some(KeyPress::new(0x2d, 0))
    } else if u == 0x20 {
        Some(KeyPress::new(0x2c, 0))
    } else {
        None
    }
}

/// The keys typing `s`, characters without a key being skipped.
pub open spec fn romaji_keys(s: Seq<char>) -> Seq<KeyPress>
    decreases s.len(),
{
    if s.len() == 0 {
        Seq::empty()
    } else {
        let rest = romaji_keys(s.drop_last());
        match ascii_key(s.last()) {
            Some(k) => rest.push(k),
            None => rest,
        }
    }
}

/// Appends the HID keys typing `romaji` to `out`, in order; characters
/// without a key are skipped.
pub fn romaji_to_hid(romaji: &str, out: &mut Vec<KeyPress>)
    ensures
        final(out)@ == old(out)@ + romaji_keys(romaji@),
{
    let n = romaji.unicode_len();
    let mut i: usize = 0;
    while i < n
        invariant
            n == romaji@.len(),
            i <= n,
            out@ == old(out)@ + romaji_keys(romaji@.take(i as int)),
        decreases n - i,
    {
        let c = romaji.get_char(i);
        assert(romaji@.take(i + 1).drop_last() =~= romaji@.take(i as int));
        assert(romaji@.take(i + 1).last() == c);
        if let Some(k) = ascii_to_hid(c) {
            out.push(k);
        }
        i += 1;
    }
    assert(romaji@.take(n as int) =~= romaji@);
}

/// For a modifier key usage (LCtrl..RGUI, 0xE0..=0xE7), its bit in the
/// report's modifier byte.
pub open spec fn modifier_bit_of(usage: u8) -> Option<u8> {
    if 0xe0 <= usage <= 0xe7 {
        Some((1u8 << ((usage - 0xe0) as u8)) as u8)
    } else {
        None
    }
}

pub fn modifier_bit(usage: u8) -> (r: Option<u8>)
    ensures
        r == modifier_bit_of(usage),
{
    if 0xe0 <= usage && usage <= 0xe7 {
        Some(1u8 << (usage - 0xe0))
    } else {
        None
    }
}

/// Set-1 scan code to HID usage (plain QWERTY pass-through): main block and
/// function row. Esc, digits, letters, punctuation, Enter, Backspace, Tab,
/// Space, CapsLock, the left modifiers, right Shift, F1..F12.
pub const SC_USAGE: [(u8, u8); 69] = [
    (0x01, 0x29),
    (0x02, 0x1e), (0x03, 0x1f), (0x04, 0x20), (0x05, 0x21), (0x06, 0x22),
    (0x07, 0x23), (0x08, 0x24), (0x09, 0x25), (0x0a, 0x26),
    (0x0b, 0x27), (0x0c, 0x2d), (0x0d, 0x2e), (0x0e, 0x2a), (0x0f, 0x2b),
    (0x10, 0x14), (0x11, 0x1a), (0x12, 0x08), (0x13, 0x15), (0x14, 0x17),
    (0x15, 0x1c), (0x16, 0x18), (0x17, 0x0c), (0x18, 0x12), (0x19, 0x13),
    (0x1a, 0x2f), (0x1b, 0x30), (0x1c, 0x28), (0x1d, 0xe0),
    (0x1e, 0x04), (0x1f, 0x16), (0x20, 0x07), (0x21, 0x09), (0x22, 0x0a),
    (0x23, 0x0b), (0x24, 0x0d), (0x25, 0x0e), (0x26, 0x0f),
    (0x27, 0x33), (0x28, 0x34), (0x29, 0x35), (0x2a, 0xe1), (0x2b, 0x31),
    (0x2c, 0x1d), (0x2d, 0x1b), (0x2e, 0x06), (0x2f, 0x19), (0x30, 0x05),
    (0x31, 0x11), (0x32, 0x10),
    (0x33, 0x36), (0x34, 0x37), (0x35, 0x38), (0x36, 0xe5), (0x38, 0xe2),
    (0x39, 0x2c), (0x3a, 0x39),
    (0x3b, 0x3a), (0x3c, 0x3b), (0x3d, 0x3c), (0x3e, 0x3d), (0x3f, 0x3e),
    (0x40, 0x3f), (0x41, 0x40), (0x42, 0x41), (0x43, 0x42), (0x44, 0x43),
    (0x57, 0x44), (0x58, 0x45),
];

pub fn sc_to_usage(sc: u8) -> (r: Option<u8>)
    ensures
        r == assoc(SC_USAGE@, sc),
{
    lookup_u8(&SC_USAGE, sc)
}

} // verus!
