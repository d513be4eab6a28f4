//! Lookups into the layout tables (layer model), and the runtime overlay
//! that is consulted before them.
use vstd::prelude::*;

use crate::assoc::{assoc, lookup_u16, lookup_u32, lookup_u8};
use crate::layout::{
    entry_action, entry_action_of, key_sequence_of, KS_LANG1, KS_LANG2, SH_DAKU_L, SH_DAKU_R, COMBO2, COMBO3, LAYERS, MATRIX_LEFT, MATRIX_RIGHT,
    MODE_LAYERS, MODE_TRIGGERS, SHIFT_KEYS,
};
use crate::Action;

verus! {

/// The half a matrix position belongs to.
#[derive(Clone, Copy, Debug, PartialEq, Eq, Structural)]
pub enum Hand {
    Left,
    Right,
}

impl Hand {
    /// The other half (the master converts its partner's keys with it).
    pub fn opposite(self) -> (r: Hand)
        ensures
            r == (match self {
                Hand::Left => Hand::Right,
                Hand::Right => Hand::Left,
            }),
    {
        match self {
            Hand::Left => Hand::Right,
            Hand::Right => Hand::Left,
        }
    }
}

/// A matrix position packed as `row * 16 + col` (low four bits of each).
pub open spec fn matrix_pos(row: u8, col: u8) -> u8 {
    ((row % 16) * 16 + col % 16) as u8
}

pub open spec fn matrix_of(hand: Hand) -> Seq<(u8, u8)> {
    match hand {
        Hand::Left => MATRIX_LEFT@,
        Hand::Right => MATRIX_RIGHT@,
    }
}

/// (row, col) of a half to its scan code; `None` where no key is defined.
pub fn matrix_to_sc(hand: Hand, row: u8, col: u8) -> (r: Option<u8>)
    ensures
        r == assoc(matrix_of(hand), matrix_pos(row, col)),
{
    let pos: u8 = (row << 4) | (col & 0x0f);
    assert(pos == ((row % 16) * 16 + col % 16) as u8) by (bit_vector)
        requires
            pos == (row << 4) | (col & 0x0f),
    ;
    match hand {
        Hand::Left => lookup_u8(&MATRIX_LEFT, pos),
        Hand::Right => lookup_u8(&MATRIX_RIGHT, pos),
    }
}

/// For a key that can act as a shift, its mask bit.
pub fn shift_mask_of(sc: u8) -> (r: Option<u8>)
    ensures
        r == assoc(SHIFT_KEYS@, sc),
{
    lookup_u8(&SHIFT_KEYS, sc)
}

/// Key of the layer tables: shift mask (or mode) and scan code.
pub open spec fn layer_key_of(mask: u8, sc: u8) -> u16 {
    (mask * 256 + sc) as u16
}

pub fn layer_key(mask: u8, sc: u8) -> (r: u16)
    ensures
        r == layer_key_of(mask, sc),
{
    let r: u16 = ((mask as u16) << 8) | (sc as u16);
    assert(r == mask * 256 + sc) by (bit_vector)
        requires
            r == ((mask as u16) << 8) | (sc as u16),
    ;
    r
}

/// The action of an optional table entry.
pub open spec fn entry_opt(e: Option<(&'static str, u8)>) -> Option<Action> {
    match e {
        Some(v) => Some(entry_action_of(v)),
        None => None,
    }
}

/// `Undefined` when absent.
pub open spec fn or_undefined(a: Option<Action>) -> Action {
    match a {
        Some(x) => x,
        None => Action::Undefined,
    }
}

/// The layer entry of a packed key.
pub open spec fn layers_get(key: u16) -> Option<Action> {
    entry_opt(assoc(LAYERS@, key))
}

/// Layer resolution: the exact (mask, sc) entry, else the unshifted entry
/// of `sc`, else `Undefined`.
pub open spec fn layer_lookup_of(mask: u8, sc: u8) -> Action {
    match layers_get(layer_key_of(mask, sc)) {
        Some(a) => a,
        None => if mask != 0 {
            or_undefined(layers_get(layer_key_of(0, sc)))
        } else {
            Action::Undefined
        },
    }
}

fn layers_entry(key: u16) -> (r: Option<Action>)
    ensures
        r == layers_get(key),
{
    match lookup_u16(&LAYERS, key) {
        Some(e) => Some(entry_action(e)),
        None => None,
    }
}

pub fn layer_lookup(mask: u8, sc: u8) -> (r: Action)
    ensures
        r == layer_lookup_of(mask, sc),
{
    if let Some(a) = layers_entry(layer_key(mask, sc)) {
        return a;
    }
    if mask != 0 {
        if let Some(a) = layers_entry(layer_key(0, sc)) {
            return a;
        }
    }
    Action::Undefined
}

/// Whether the exact (mask, sc) entry exists (no fallback).
pub fn layer_has(mask: u8, sc: u8) -> (r: bool)
    ensures
        r == (layers_get(layer_key_of(mask, sc)) is Some),
{
    lookup_u16(&LAYERS, layer_key(mask, sc)).is_some()
}

/// Key of a two-key chord: the two scan codes sorted, lowest first.
pub open spec fn combo2_key_of(a: u8, b: u8) -> u16 {
    if a <= b {
        (a + 256 * b) as u16
    } else {
        (b + 256 * a) as u16
    }
}

pub fn combo2_key(a: u8, b: u8) -> (r: u16)
    ensures
        r == combo2_key_of(a, b),
{
    let (lo, hi) = if a <= b {
        (a, b)
    } else {
        (b, a)
    };
    let r: u16 = (lo as u16) | ((hi as u16) << 8);
    assert(r == lo + 256 * hi) by (bit_vector)
        requires
            r == (lo as u16) | ((hi as u16) << 8),
    ;
    r
}

pub open spec fn combo2_of(a: u8, b: u8) -> Action {
    or_undefined(entry_opt(assoc(COMBO2@, combo2_key_of(a, b))))
}

/// Two-key chord of unshifted keys, in either order; `Undefined` if none.
pub fn combo2_lookup(a: u8, b: u8) -> (r: Action)
    ensures
        r == combo2_of(a, b),
{
    match lookup_u16(&COMBO2, combo2_key(a, b)) {
        Some(e) => entry_action(e),
        None => Action::Undefined,
    }
}

pub open spec fn min3(a: u8, b: u8, c: u8) -> u8 {
    if a <= b && a <= c {
        a
    } else if b <= c {
        b
    } else {
        c
    }
}

pub open spec fn max3(a: u8, b: u8, c: u8) -> u8 {
    if a >= b && a >= c {
        a
    } else if b >= c {
        b
    } else {
        c
    }
}

/// Key of a three-key chord: the scan codes sorted, lowest first, one byte each.
pub open spec fn combo3_key_of(a: u8, b: u8, c: u8) -> u32 {
    let lo = min3(a, b, c);
    let hi = max3(a, b, c);
    let mid = a + b + c - lo - hi;
    (lo + 256 * mid + 65536 * hi) as u32
}

pub fn combo3_key(a: u8, b: u8, c: u8) -> (r: u32)
    ensures
        r == combo3_key_of(a, b, c),
{
    let mut lo = a;
    let mut mid = b;
    let mut hi = c;
    if lo > mid {
        let t = lo;
        lo = mid;
        mid = t;
    }
    if mid > hi {
        let t = mid;
        mid = hi;
        hi = t;
    }
    if lo > mid {
        let t = lo;
        lo = mid;
        mid = t;
    }
    assert(lo == min3(a, b, c) && hi == max3(a, b, c) && mid == a + b + c - lo - hi);
    let r: u32 = (lo as u32) | (mid as u32) << 8 | (hi as u32) << 16;
    assert(r == lo + 256 * mid + 65536 * hi) by (bit_vector)
        requires
            r == (lo as u32) | (mid as u32) << 8 | (hi as u32) << 16,
    ;
    r
}

pub open spec fn combo3_of(a: u8, b: u8, c: u8) -> Action {
    or_undefined(entry_opt(assoc(COMBO3@, combo3_key_of(a, b, c))))
}

/// Three-key chord, in any order; `Undefined` if none.
pub fn combo3_lookup(a: u8, b: u8, c: u8) -> (r: Action)
    ensures
        r == combo3_of(a, b, c),
{
    match lookup_u32(&COMBO3, combo3_key(a, b, c)) {
        Some(e) => entry_action(e),
        None => Action::Undefined,
    }
}

/// Whether the three-key chord key `k` holds the two keys of the two-key
/// chord key `want`.
pub open spec fn triple_has_pair(k: u32, want: u16) -> bool {
    let x = (k % 256) as u8;
    let y = (k / 256 % 256) as u8;
    let z = (k / 65536 % 256) as u8;
    combo2_key_of(x, y) == want || combo2_key_of(x, z) == want || combo2_key_of(y, z) == want
}

/// Whether some chord key of `s` holds the two keys `a`, `b`.
pub open spec fn chords_hold_pair<V>(s: Seq<(u32, V)>, a: u8, b: u8) -> bool {
    exists|i: int| 0 <= i < s.len() && triple_has_pair(#[trigger] s[i].0, combo2_key_of(a, b))
}

fn triple_holds_pair(k: u32, want: u16) -> (r: bool)
    ensures
        r == triple_has_pair(k, want),
{
    let x: u8 = (k & 0xff) as u8;
    let y: u8 = ((k >> 8) & 0xff) as u8;
    let z: u8 = ((k >> 16) & 0xff) as u8;
    assert(x == (k % 256) as u8 && y == (k / 256 % 256) as u8 && z == (k / 65536 % 256) as u8)
        by (bit_vector)
        requires
            x == (k & 0xff) as u8,
            y == ((k >> 8) & 0xff) as u8,
            z == ((k >> 16) & 0xff) as u8,
    ;
    combo2_key(x, y) == want || combo2_key(x, z) == want || combo2_key(y, z) == want
}

fn chords_have_pair<V>(s: &[(u32, V)], a: u8, b: u8) -> (r: bool)
    ensures
        r == chords_hold_pair(s@, a, b),
{
    let want = combo2_key(a, b);
    let mut i: usize = 0;
    while i < s.len()
        invariant
            i <= s@.len(),
            want == combo2_key_of(a, b),
            forall|j: int| 0 <= j < i ==> !triple_has_pair(#[trigger] s@[j].0, want),
        decreases s@.len() - i,
    {
        if triple_holds_pair(s[i].0, want) {
            return true;
        }
        i += 1;
    }
    false
}

/// Whether the two keys {a, b} are part of some three-key chord (so that
/// committing them waits for a third key).
pub fn is_combo3_prefix(a: u8, b: u8) -> (r: bool)
    ensures
        r == chords_hold_pair(COMBO3@, a, b),
{
    chords_have_pair(&COMBO3, a, b)
}

/// The editing mode that the two keys trigger, in either order.
pub fn mode_trigger(a: u8, b: u8) -> (r: Option<u8>)
    ensures
        r == assoc(MODE_TRIGGERS@, combo2_key_of(a, b)),
{
    lookup_u16(&MODE_TRIGGERS, combo2_key(a, b))
}

pub open spec fn mode_of(mode: u8, sc: u8) -> Action {
    or_undefined(entry_opt(assoc(MODE_LAYERS@, layer_key_of(mode, sc))))
}

/// The action of a key in an editing mode; `Undefined` if none.
pub fn mode_lookup(mode: u8, sc: u8) -> (r: Action)
    ensures
        r == mode_of(mode, sc),
{
    match lookup_u16(&MODE_LAYERS, layer_key(mode, sc)) {
        Some(e) => entry_action(e),
        None => Action::Undefined,
    }
}

/// Runtime overlay: consulted before each layout table. Keys are packed as
/// in the tables (`layer_key`, `combo2_key`, `combo3_key`). An empty overlay
/// leaves the layout as it is.
pub struct Overlay {
    /// Layer overrides, key `mask * 256 + sc`.
    pub layers: &'static [(u16, Action)],
    /// Two-key chord overrides, key `combo2_key(a, b)`.
    pub combo2: &'static [(u16, Action)],
    /// Three-key chord overrides, key `combo3_key(a, b, c)`.
    pub combo3: &'static [(u32, Action)],
    /// Editing mode overrides, key `mode * 256 + sc`.
    pub modes: &'static [(u16, Action)],
}

/// The empty overlay (the default of an engine).
pub fn empty_overlay() -> (r: &'static Overlay)
    ensures
        r.layers@.len() == 0,
        r.combo2@.len() == 0,
        r.combo3@.len() == 0,
        r.modes@.len() == 0,
{
    &Overlay { layers: &[], combo2: &[], combo3: &[], modes: &[] }
}

impl Overlay {
    /// Layer override of (mask, sc), if any.
    pub fn find_layer(&self, mask: u8, sc: u8) -> (r: Option<Action>)
        ensures
            r == assoc(self.layers@, layer_key_of(mask, sc)),
    {
        lookup_u16(self.layers, layer_key(mask, sc))
    }

    /// Two-key chord override of {a, b}, if any.
    pub fn find_combo2(&self, a: u8, b: u8) -> (r: Option<Action>)
        ensures
            r == assoc(self.combo2@, combo2_key_of(a, b)),
    {
        lookup_u16(self.combo2, combo2_key(a, b))
    }

    /// Three-key chord override of {a, b, c}, if any.
    pub fn find_combo3(&self, a: u8, b: u8, c: u8) -> (r: Option<Action>)
        ensures
            r == assoc(self.combo3@, combo3_key_of(a, b, c)),
    {
        lookup_u32(self.combo3, combo3_key(a, b, c))
    }

    /// Editing mode override of (mode, sc), if any.
    pub fn find_mode(&self, mode: u8, sc: u8) -> (r: Option<Action>)
        ensures
            r == assoc(self.modes@, layer_key_of(mode, sc)),
    {
        lookup_u16(self.modes, layer_key(mode, sc))
    }

    /// Whether {a, b} is part of some three-key chord override.
    pub fn has_combo3_prefix(&self, a: u8, b: u8) -> (r: bool)
        ensures
            r == chords_hold_pair(self.combo3@, a, b),
    {
        chords_have_pair(self.combo3, a, b)
    }
}

/// Layer keys tell (mask, sc) pairs apart.
pub proof fn lemma_layer_key_injective(m1: u8, s1: u8, m2: u8, s2: u8)
    ensures
        layer_key_of(m1, s1) == layer_key_of(m2, s2) ==> m1 == m2 && s1 == s2,
{
}

/// A two-key chord's key does not depend on the order of its keys, and
/// tells chords apart.
pub proof fn lemma_combo2_key(a: u8, b: u8, c: u8, d: u8)
    ensures
        combo2_key_of(a, b) == combo2_key_of(b, a),
        combo2_key_of(a, b) == combo2_key_of(c, d) ==> (a == c && b == d) || (a == d && b == c),
{
}

/// A three-key chord's key does not depend on the order of its keys.
pub proof fn lemma_combo3_key_order(a: u8, b: u8, c: u8)
    ensures
        combo3_key_of(a, b, c) == combo3_key_of(b, a, c),
        combo3_key_of(a, b, c) == combo3_key_of(a, c, b),
        combo3_key_of(a, b, c) == combo3_key_of(c, b, a),
{
}

/// The IME chords of the layout: F, the left voiced-mark shift, with G is
/// IME off (the LANG2 sequence), and J, the right voiced-mark shift, with H
/// is IME on (the LANG1 sequence).
pub proof fn lemma_ime_chords()
    ensures
        assoc(SHIFT_KEYS@, 0x21) == Some(SH_DAKU_L),
        assoc(SHIFT_KEYS@, 0x24) == Some(SH_DAKU_R),
        layer_lookup_of(SH_DAKU_L, 0x22) == Action::Keys(key_sequence_of(KS_LANG2)),
        layer_lookup_of(SH_DAKU_R, 0x23) == Action::Keys(key_sequence_of(KS_LANG1)),
{
    reveal_with_fuel(assoc, 4);
    assert forall|j: int| 0 <= j < 73 implies #[trigger] LAYERS@[j].0 == LAYERS@[j].0
        && (LAYERS@[j].0 == 0x0422u16 ==> j == 72) && (LAYERS@[j].0 == 0x0223u16 ==> j == 63) by {
        if j == 0 {
            assert(LAYERS@[0].0 == 0x0010);
        } else if j == 1 {
            assert(LAYERS@[1].0 == 0x0011);
        } else if j == 2 {
            assert(LAYERS@[2].0 == 0x0012);
        } else if j == 3 {
            assert(LAYERS@[3].0 == 0x0013);
        } else if j == 4 {
            assert(LAYERS@[4].0 == 0x0014);
        } else if j == 5 {
            assert(LAYERS@[5].0 == 0x0015);
        } else if j == 6 {
            assert(LAYERS@[6].0 == 0x0016);
        } else if j == 7 {
            assert(LAYERS@[7].0 == 0x0017);
        } else if j == 8 {
            assert(LAYERS@[8].0 == 0x0018);
        } else if j == 9 {
            assert(LAYERS@[9].0 == 0x0019);
        } else if j == 10 {
            assert(LAYERS@[10].0 == 0x001e);
        } else if j == 11 {
            assert(LAYERS@[11].0 == 0x001f);
        } else if j == 12 {
            assert(LAYERS@[12].0 == 0x0020);
        } else if j == 13 {
            assert(LAYERS@[13].0 == 0x0021);
        } else if j == 14 {
            assert(LAYERS@[14].0 == 0x0022);
        } else if j == 15 {
            assert(LAYERS@[15].0 == 0x0023);
        } else if j == 16 {
            assert(LAYERS@[16].0 == 0x0024);
        } else if j == 17 {
            assert(LAYERS@[17].0 == 0x0025);
        } else if j == 18 {
            assert(LAYERS@[18].0 == 0x0026);
        } else if j == 19 {
            assert(LAYERS@[19].0 == 0x0027);
        } else if j == 20 {
            assert(LAYERS@[20].0 == 0x002c);
        } else if j == 21 {
            assert(LAYERS@[21].0 == 0x002d);
        } else if j == 22 {
            assert(LAYERS@[22].0 == 0x002e);
        } else if j == 23 {
            assert(LAYERS@[23].0 == 0x002f);
        } else if j == 24 {
            assert(LAYERS@[24].0 == 0x0030);
        } else if j == 25 {
            assert(LAYERS@[25].0 == 0x0031);
        } else if j == 26 {
            assert(LAYERS@[26].0 == 0x0032);
        } else if j == 27 {
            assert(LAYERS@[27].0 == 0x0033);
        } else if j == 28 {
            assert(LAYERS@[28].0 == 0x0034);
        } else if j == 29 {
            assert(LAYERS@[29].0 == 0x0035);
        } else if j == 30 {
            assert(LAYERS@[30].0 == 0x0039);
        } else if j == 31 {
            assert(LAYERS@[31].0 == 0x0111);
        } else if j == 32 {
            assert(LAYERS@[32].0 == 0x0112);
        } else if j == 33 {
            assert(LAYERS@[33].0 == 0x0113);
        } else if j == 34 {
            assert(LAYERS@[34].0 == 0x0116);
        } else if j == 35 {
            assert(LAYERS@[35].0 == 0x0117);
        } else if j == 36 {
            assert(LAYERS@[36].0 == 0x0118);
        } else if j == 37 {
            assert(LAYERS@[37].0 == 0x0119);
        } else if j == 38 {
            assert(LAYERS@[38].0 == 0x011e);
        } else if j == 39 {
            assert(LAYERS@[39].0 == 0x011f);
        } else if j == 40 {
            assert(LAYERS@[40].0 == 0x0120);
        } else if j == 41 {
            assert(LAYERS@[41].0 == 0x0121);
        } else if j == 42 {
            assert(LAYERS@[42].0 == 0x0122);
        } else if j == 43 {
            assert(LAYERS@[43].0 == 0x0123);
        } else if j == 44 {
            assert(LAYERS@[44].0 == 0x0124);
        } else if j == 45 {
            assert(LAYERS@[45].0 == 0x0125);
        } else if j == 46 {
            assert(LAYERS@[46].0 == 0x0126);
        } else if j == 47 {
            assert(LAYERS@[47].0 == 0x0127);
        } else if j == 48 {
            assert(LAYERS@[48].0 == 0x012e);
        } else if j == 49 {
            assert(LAYERS@[49].0 == 0x012f);
        } else if j == 50 {
            assert(LAYERS@[50].0 == 0x0130);
        } else if j == 51 {
            assert(LAYERS@[51].0 == 0x0131);
        } else if j == 52 {
            assert(LAYERS@[52].0 == 0x0132);
        } else if j == 53 {
            assert(LAYERS@[53].0 == 0x0133);
        } else if j == 54 {
            assert(LAYERS@[54].0 == 0x0134);
        } else if j == 55 {
            assert(LAYERS@[55].0 == 0x0211);
        } else if j == 56 {
            assert(LAYERS@[56].0 == 0x0212);
        } else if j == 57 {
            assert(LAYERS@[57].0 == 0x0213);
        } else if j == 58 {
            assert(LAYERS@[58].0 == 0x021e);
        } else if j == 59 {
            assert(LAYERS@[59].0 == 0x021f);
        } else if j == 60 {
            assert(LAYERS@[60].0 == 0x0220);
        } else if j == 61 {
            assert(LAYERS@[61].0 == 0x0221);
        } else if j == 62 {
            assert(LAYERS@[62].0 == 0x0222);
        } else if j == 63 {
            assert(LAYERS@[63].0 == 0x0223);
        } else if j == 64 {
            assert(LAYERS@[64].0 == 0x022c);
        } else if j == 65 {
            assert(LAYERS@[65].0 == 0x022d);
        } else if j == 66 {
            assert(LAYERS@[66].0 == 0x022e);
        } else if j == 67 {
            assert(LAYERS@[67].0 == 0x022f);
        } else if j == 68 {
            assert(LAYERS@[68].0 == 0x0230);
        } else if j == 69 {
            assert(LAYERS@[69].0 == 0x0416);
        } else if j == 70 {
            assert(LAYERS@[70].0 == 0x0418);
        } else if j == 71 {
            assert(LAYERS@[71].0 == 0x0419);
        } else if j == 72 {
            assert(LAYERS@[72].0 == 0x0422);
        }
    }
    assert(LAYERS@[72] == (0x0422u16, ("", KS_LANG2)));
    assert(LAYERS@[63] == (0x0223u16, ("", KS_LANG1)));
    crate::assoc::lemma_assoc_first(LAYERS@, 0x0422u16, 72);
    crate::assoc::lemma_assoc_first(LAYERS@, 0x0223u16, 63);
    assert(layer_key_of(SH_DAKU_L, 0x22) == 0x0422u16);
    assert(layer_key_of(SH_DAKU_R, 0x23) == 0x0223u16);
}

} // verus!
