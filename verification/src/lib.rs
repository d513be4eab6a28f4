//! Naginata-style chorded kana input for a split keyboard, with its
//! configuration format, serial link and HID reporting, verified with Verus.
//!
//! Data flow:
//!   physical key (row, col, hand) --[keymap]--> scan code
//!   scan codes --[engine: chord resolution + shift layers]--> `Action`
//!   `Action::Kana` --[romaji]--> romaji --[hid]--> HID key presses
//!   `Action::Keys` --[hid]--> HID key presses directly
use vstd::prelude::*;

pub mod assoc;
pub mod board;
pub mod ble;
pub mod ble_bond_store;
pub mod config;
pub mod config_store;
pub mod engine;
pub mod handedness;
pub mod hid;
pub mod keymap;
pub mod layout;
pub mod matrix;
pub mod romaji;
pub mod split;
pub mod usb_config;
pub mod usb_hid;

pub use engine::Engine;
pub use hid::KeyPress;

verus! {

/// Result of resolving key strokes.
///
/// - `Kana`: kana, typed through romaji.
/// - `Keys`: HID key presses sent directly (IME on/off, Enter, editing shortcuts).
/// - `Undefined`: nothing is assigned (ignored).
#[derive(Clone, Copy, Debug, PartialEq, Eq)]
pub enum Action {
    Kana(&'static str),
    Keys(&'static [KeyPress]),
    Undefined,
}

impl Action {
    /// True for `Action::Undefined`.
    pub fn is_undefined(&self) -> (r: bool)
        ensures
            r == (*self is Undefined),
    {
        match self {
            Action::Undefined => true,
            _ => false,
        }
    }
}

} // verus!
