//! Internal pseudo usages: interpreted by the firmware only, never sent over
//! HID. They live in the (usage, modifiers) space of direct keys and custom
//! layers and switch layers: `0xF0 | n` = MO(n) (active while held),
//! `0xF8 | n` = TG(n) (toggle); the low three bits are the layer id. Layer 0
//! is plain QWERTY pass-through; 1..7 are custom layers.
use vstd::prelude::*;

verus! {

/// Base of MO(n): `MO_BASE | layer_id`.
pub const MO_BASE: u8 = 0xF0;
/// Base of TG(n): `TG_BASE | layer_id`.
pub const TG_BASE: u8 = 0xF8;
/// Pass-through while held = MO(0).
pub const MO_PASS: u8 = MO_BASE;
/// Toggle pass-through = TG(0).
pub const TG_PASS: u8 = TG_BASE;

/// For a pseudo layer usage, Some((toggle, layer id)).
pub open spec fn layer_op_of(usage: u8) -> Option<(bool, u8)> {
    if usage >= TG_BASE {
        Some((true, (usage % 8) as u8))
    } else if usage >= MO_BASE {
        Some((false, (usage % 8) as u8))
    } else {
        None
    }
}

pub fn layer_op(usage: u8) -> (r: Option<(bool, u8)>)
    ensures
        r == layer_op_of(usage),
{
    let id: u8 = usage & 0x07;
    assert(id == usage % 8) by (bit_vector)
        requires
            id == usage & 0x07,
    ;
    if usage >= TG_BASE {
        Some((true, id))
    } else if usage >= MO_BASE {
        Some((false, id))
    } else {
        None
    }
}

} // verus!
