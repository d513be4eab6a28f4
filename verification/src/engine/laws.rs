//! Laws of the chord engine: an empty overlay changes nothing, the status
//! display shows the held shifts, and releases end what they should.
use vstd::prelude::*;

use crate::assoc::{assoc, first_index, lemma_assoc_some};
use crate::engine::{
    combo2_act, combo3_act, commit_of, display_of, flush_of, has_layer_of, mode_act, prefix_of,
    press_of, release_of, release_shift_of, resolve_of, resolve_pair_of, shift_bit, swap_remove_of,
    tick_of, EngineState,
};
use crate::layout::SHIFT_KEYS;
use crate::keymap::{chords_hold_pair, combo2_of, combo3_of, layer_key_of, layer_lookup_of, layers_get, mode_of};
use crate::Action;

verus! {

/// Whether an overlay has no entries.
pub open spec fn overlay_empty(s: EngineState) -> bool {
    &&& s.overlay.layers@.len() == 0
    &&& s.overlay.combo2@.len() == 0
    &&& s.overlay.combo3@.len() == 0
    &&& s.overlay.modes@.len() == 0
}

/// With an empty overlay every lookup of the engine is the layout's: a
/// layer resolves as the layout tables do, and chords, editing modes and
/// three-key prefixes are the layout's.
pub proof fn lemma_empty_overlay_is_layout(s: EngineState, mask: u8, sc: u8, a: u8, b: u8, c: u8)
    requires
        overlay_empty(s),
    ensures
        resolve_of(s, mask, sc) == layer_lookup_of(mask, sc),
        has_layer_of(s, mask, sc) == layers_get(layer_key_of(mask, sc)) is Some,
        combo2_act(s, a, b) == combo2_of(a, b),
        combo3_act(s, a, b, c) == combo3_of(a, b, c),
        mode_act(s, mask, sc) == mode_of(mask, sc),
        prefix_of(s, a, b) == chords_hold_pair(crate::layout::COMBO3@, a, b),
{
    assert(!chords_hold_pair(s.overlay.combo3@, a, b));
}

/// The status display shows every held shift, and exactly the held shifts
/// unless a shift key is pending.
pub proof fn lemma_display_shows_held(s: EngineState)
    ensures
        display_of(s) & s.held_shifts == s.held_shifts,
        !(s.pending matches Some((p, _)) && crate::engine::shift_bit(p) is Some) ==> display_of(s)
            == s.held_shifts,
{
    let h = s.held_shifts;
    if let Some((p, _)) = s.pending {
        if let Some(bit) = crate::engine::shift_bit(p) {
            assert((h | bit) & h == h) by (bit_vector);
        } else {
            assert(h & h == h) by (bit_vector);
        }
    } else {
        assert(h & h == h) by (bit_vector);
    }
}

proof fn lemma_commit_keeps(s: EngineState, sc: u8, bit: u8)
    ensures
        commit_of(s, sc, bit).repeat == s.repeat,
        commit_of(s, sc, bit).mode == s.mode,
{
}

/// Resolving a pair changes neither the repeat nor, outside a mode
/// trigger, the mode.
proof fn lemma_pair_keeps_repeat(s: EngineState, out: Seq<Action>, p: u8, k: u8, now: u32, defer: bool)
    ensures
        resolve_pair_of(s, out, p, k, now, defer).0.repeat == s.repeat,
{
    lemma_commit_keeps(s, p, 0);
    if let (Some(bp), Some(bk)) = (crate::engine::shift_bit(p), crate::engine::shift_bit(k)) {
        lemma_commit_keeps(s, p, bp);
        lemma_commit_keeps(commit_of(s, p, bp), k, bk);
    }
}

/// Releasing the key being repeated stops the repeat.
pub proof fn lemma_release_stops_repeat(s: EngineState, out: Seq<Action>, sc: u8, now: u32)
    requires
        s.repeat matches Some(r) && r.sc == sc,
    ensures
        release_of(s, out, sc, now).0.repeat is None,
{
    let s0 = EngineState { repeat: None, ..s };
    if s0.mode is Some {
    } else {
        if let Some((a, b, _)) = s0.pend3 {
            lemma_pair_keeps_repeat(EngineState { pend3: None, ..s0 }, out, a, b, now, false);
        }
    }
}

/// Releasing a key of the editing mode's trigger leaves the mode, stops any
/// repeat and outputs nothing.
pub proof fn lemma_release_leaves_mode(s: EngineState, out: Seq<Action>, sc: u8, now: u32)
    requires
        s.mode is Some,
        sc == s.mode_keys.0 || sc == s.mode_keys.1,
    ensures
        release_of(s, out, sc, now).0.mode is None,
        release_of(s, out, sc, now).0.repeat is None,
        release_of(s, out, sc, now).1 == out,
{
}

// ---------------------------------------------------------------------
// Held shifts
// ---------------------------------------------------------------------

/// A bit of the shift mask.
pub open spec fn one_bit(b: u8) -> bool {
    b == 1 || b == 2 || b == 4 || b == 8 || b == 16 || b == 32
}

/// The held-shift bookkeeping: each committed shift key has its own bit,
/// set in the mask, and each bit of the mask belongs to a committed key.
pub open spec fn shifts_consistent(s: EngineState) -> bool {
    &&& forall|i: int|
        0 <= i < s.shift_src.len() ==> one_bit(#[trigger] s.shift_src[i].1) && s.held_shifts
            & s.shift_src[i].1 != 0
    &&& forall|i: int, j: int|
        0 <= i < j < s.shift_src.len() ==> #[trigger] s.shift_src[i].1 != #[trigger] s.shift_src[j].1
    &&& forall|b: u8|
        one_bit(b) && #[trigger] (s.held_shifts & b) != 0 ==> exists|i: int|
            0 <= i < s.shift_src.len() && #[trigger] s.shift_src[i].1 == b
    &&& s.held_shifts & 0xc0 == 0
}

/// The bookkeeping depends on the mask and the committed keys only.
proof fn lemma_frame(s: EngineState)
    requires
        shifts_consistent(s),
    ensures
        forall|t: EngineState|
            t.held_shifts == s.held_shifts && t.shift_src == s.shift_src ==> #[trigger] shifts_consistent(t),
{
}

/// The shift keys' bits are bits of the mask.
pub proof fn lemma_shift_bits(sc: u8)
    ensures
        shift_bit(sc) matches Some(b) ==> one_bit(b),
{
    lemma_assoc_some(SHIFT_KEYS@, sc);
    if let Some(b) = shift_bit(sc) {
        let i = choose|i: int|
            0 <= i < SHIFT_KEYS@.len() && SHIFT_KEYS@[i].0 == sc && SHIFT_KEYS@[i].1 == b;
        assert(0 <= i < 6);
        if i == 0 {
        } else if i == 1 {
        } else if i == 2 {
        } else if i == 3 {
        } else if i == 4 {
        } else {
        }
    }
}

proof fn lemma_bits(h: u8, x: u8, y: u8)
    requires
        one_bit(x),
        one_bit(y),
    ensures
        (h | x) & x != 0,
        x != y ==> (((h | x) & y != 0) == (h & y != 0)),
        (h & !x) & x == 0,
        x != y ==> (((h & !x) & y != 0) == (h & y != 0)),
        h & 0xc0 == 0 ==> (h | x) & 0xc0 == 0,
        h & 0xc0 == 0 ==> (h & !x) & 0xc0 == 0,
{
    assert((h | x) & x != 0) by (bit_vector)
        requires
            x == 1 || x == 2 || x == 4 || x == 8 || x == 16 || x == 32,
    ;
    assert(x != y ==> (((h | x) & y != 0) == (h & y != 0))) by (bit_vector)
        requires
            x == 1 || x == 2 || x == 4 || x == 8 || x == 16 || x == 32,
            y == 1 || y == 2 || y == 4 || y == 8 || y == 16 || y == 32,
    ;
    assert((h & !x) & x == 0) by (bit_vector);
    assert(x != y ==> (((h & !x) & y != 0) == (h & y != 0))) by (bit_vector)
        requires
            x == 1 || x == 2 || x == 4 || x == 8 || x == 16 || x == 32,
            y == 1 || y == 2 || y == 4 || y == 8 || y == 16 || y == 32,
    ;
    assert(h & 0xc0 == 0 ==> (h | x) & 0xc0 == 0) by (bit_vector)
        requires
            x == 1 || x == 2 || x == 4 || x == 8 || x == 16 || x == 32,
    ;
    assert(h & 0xc0 == 0 ==> (h & !x) & 0xc0 == 0) by (bit_vector);
}

/// With consistent bookkeeping at most six keys are committed as shifts
/// (one per bit), so the list of committed keys never drops one.
pub proof fn lemma_few_entries(s: EngineState)
    requires
        shifts_consistent(s),
    ensures
        s.shift_src.len() <= 6,
{
    if s.shift_src.len() > 6 {
        let v = s.shift_src;
        let f = |b: u8| if b == 1 {
            0int
        } else if b == 2 {
            1int
        } else if b == 4 {
            2int
        } else if b == 8 {
            3int
        } else if b == 16 {
            4int
        } else {
            5int
        };
        assert(one_bit(v[0].1) && one_bit(v[1].1) && one_bit(v[2].1) && one_bit(v[3].1));
        assert(one_bit(v[4].1) && one_bit(v[5].1) && one_bit(v[6].1));
        assert(v[0].1 != v[1].1 && v[0].1 != v[2].1 && v[0].1 != v[3].1 && v[0].1 != v[4].1);
        assert(v[0].1 != v[5].1 && v[0].1 != v[6].1 && v[1].1 != v[2].1 && v[1].1 != v[3].1);
        assert(v[1].1 != v[4].1 && v[1].1 != v[5].1 && v[1].1 != v[6].1 && v[2].1 != v[3].1);
        assert(v[2].1 != v[4].1 && v[2].1 != v[5].1 && v[2].1 != v[6].1 && v[3].1 != v[4].1);
        assert(v[3].1 != v[5].1 && v[3].1 != v[6].1 && v[4].1 != v[5].1 && v[4].1 != v[6].1);
        assert(v[5].1 != v[6].1);
    }
}

/// Committing a shift key with a bit of the mask keeps the bookkeeping.
proof fn lemma_commit_consistent(s: EngineState, sc: u8, bit: u8)
    requires
        shifts_consistent(s),
        one_bit(bit),
    ensures
        shifts_consistent(commit_of(s, sc, bit)),
{
    if s.held_shifts & bit == 0 {
        lemma_few_entries(s);
        let t = commit_of(s, sc, bit);
        let h = s.held_shifts;
        assert(t.shift_src == s.shift_src.push((sc, bit)));
        assert forall|i: int| 0 <= i < t.shift_src.len() implies one_bit(#[trigger] t.shift_src[i].1)
            && t.held_shifts & t.shift_src[i].1 != 0 by {
            lemma_bits(h, bit, t.shift_src[i].1);
        }
        assert forall|i: int, j: int| 0 <= i < j < t.shift_src.len() implies #[trigger] t.shift_src[i].1
            != #[trigger] t.shift_src[j].1 by {
            if j == s.shift_src.len() {
                assert(h & s.shift_src[i].1 != 0);
            }
        }
        assert forall|b: u8| one_bit(b) && #[trigger] (t.held_shifts & b) != 0 implies exists|i: int|
            0 <= i < t.shift_src.len() && #[trigger] t.shift_src[i].1 == b by {
            lemma_bits(h, bit, b);
            if b == bit {
                assert(t.shift_src[s.shift_src.len() as int].1 == b);
            } else {
                let i = choose|i: int| 0 <= i < s.shift_src.len() && #[trigger] s.shift_src[i].1 == b;
                assert(t.shift_src[i].1 == b);
            }
        }
        lemma_bits(h, bit, bit);
    }
}

/// Releasing a committed shift key keeps the bookkeeping.
proof fn lemma_release_shift_consistent(s: EngineState, sc: u8)
    requires
        shifts_consistent(s),
    ensures
        shifts_consistent(release_shift_of(s, sc)),
{
    if exists|i: int| first_index(s.shift_src, sc, i) {
        let i = choose|i: int| first_index(s.shift_src, sc, i);
        let v = s.shift_src;
        let bit = v[i].1;
        let h = s.held_shifts;
        let t = release_shift_of(s, sc);
        let n = v.len() - 1;
        assert(t.shift_src == swap_remove_of(v, i));
        assert(t.held_shifts == h & !bit);
        assert forall|a: int| 0 <= a < t.shift_src.len() implies t.shift_src[a] == (if a == i {
            v[n]
        } else {
            v[a]
        }) by {}
        assert forall|a: int| 0 <= a < t.shift_src.len() implies one_bit(#[trigger] t.shift_src[a].1)
            && t.held_shifts & t.shift_src[a].1 != 0 by {
            let k = if a == i {
                n
            } else {
                a
            };
            assert(t.shift_src[a] == v[k]);
            assert(k != i);
            assert(v[k].1 != bit);
            lemma_bits(h, bit, v[k].1);
        }
        assert forall|a: int, b: int| 0 <= a < b < t.shift_src.len() implies #[trigger] t.shift_src[a].1
            != #[trigger] t.shift_src[b].1 by {
            let ka = if a == i {
                n
            } else {
                a
            };
            let kb = if b == i {
                n
            } else {
                b
            };
            assert(t.shift_src[a] == v[ka]);
            assert(t.shift_src[b] == v[kb]);
            assert(ka != kb);
            if ka < kb {
                assert(v[ka].1 != v[kb].1);
            } else {
                assert(v[kb].1 != v[ka].1);
            }
        }
        assert forall|b: u8| one_bit(b) && #[trigger] (t.held_shifts & b) != 0 implies exists|a: int|
            0 <= a < t.shift_src.len() && #[trigger] t.shift_src[a].1 == b by {
            lemma_bits(h, bit, b);
            let j = choose|j: int| 0 <= j < v.len() && #[trigger] v[j].1 == b;
            assert(j != i);
            if j == n {
                assert(t.shift_src[i].1 == b);
            } else {
                assert(t.shift_src[j].1 == b);
            }
        }
        lemma_bits(h, bit, bit);
    }
}

/// Resolving a pair keeps the bookkeeping.
proof fn lemma_pair_consistent(s: EngineState, out: Seq<Action>, p: u8, k: u8, now: u32, defer: bool)
    requires
        shifts_consistent(s),
    ensures
        shifts_consistent(resolve_pair_of(s, out, p, k, now, defer).0),
{
    lemma_shift_bits(p);
    lemma_shift_bits(k);
    lemma_frame(s);
    if let Some(bp) = shift_bit(p) {
        lemma_commit_consistent(s, p, bp);
        if let Some(bk) = shift_bit(k) {
            lemma_commit_consistent(commit_of(s, p, bp), k, bk);
        }
    }
    if let Some(bk) = shift_bit(k) {
        lemma_commit_consistent(s, k, bk);
    }
}

/// A key press keeps the held-shift bookkeeping.
pub proof fn lemma_press_consistent(s: EngineState, out: Seq<Action>, sc: u8, now: u32)
    requires
        shifts_consistent(s),
    ensures
        shifts_consistent(press_of(s, out, sc, now).0),
{
    lemma_shift_bits(sc);
    lemma_frame(s);
    if s.mode is None {
        let s0 = EngineState { pend3: None, ..s };
        if let Some((a, b, _)) = s.pend3 {
            lemma_pair_consistent(s0, out, a, b, now, false);
        }
        let s1 = match s.pend3 {
            Some((a, b, _)) => resolve_pair_of(s0, out, a, b, now, false).0,
            None => s,
        };
        lemma_frame(s1);
        if let Some(bit) = shift_bit(sc) {
            lemma_commit_consistent(s1, sc, bit);
        }
        if let Some((p, _)) = s1.pending {
            lemma_pair_consistent(EngineState { pending: None, ..s1 }, out, p, sc, now, true);
            let out1 = match s.pend3 {
                Some((a, b, _)) => resolve_pair_of(s0, out, a, b, now, false).1,
                None => out,
            };
            lemma_pair_consistent(EngineState { pending: None, ..s1 }, out1, p, sc, now, true);
        }
    }
}

/// A key release keeps the held-shift bookkeeping.
pub proof fn lemma_release_consistent(s: EngineState, out: Seq<Action>, sc: u8, now: u32)
    requires
        shifts_consistent(s),
    ensures
        shifts_consistent(release_of(s, out, sc, now).0),
{
    let s0 = match s.repeat {
        Some(r) => if r.sc == sc {
            EngineState { repeat: None, ..s }
        } else {
            s
        },
        None => s,
    };
    lemma_frame(s);
    lemma_frame(s0);
    if s0.mode is None {
        if let Some((a, b, _)) = s0.pend3 {
            lemma_pair_consistent(EngineState { pend3: None, ..s0 }, out, a, b, now, false);
        }
        let s1 = match s0.pend3 {
            Some((a, b, _)) => if sc == a || sc == b {
                resolve_pair_of(EngineState { pend3: None, ..s0 }, out, a, b, now, false).0
            } else {
                s0
            },
            None => s0,
        };
        lemma_frame(s1);
        lemma_release_shift_consistent(s1, sc);
        lemma_frame(release_shift_of(s1, sc));
    }
}

/// A timer tick keeps the held-shift bookkeeping.
pub proof fn lemma_tick_consistent(s: EngineState, out: Seq<Action>, now: u32)
    requires
        shifts_consistent(s),
    ensures
        shifts_consistent(tick_of(s, out, now).0),
{
    let (s0, out0) = match s.repeat {
        Some(r) => if crate::engine::reached(now, r.next_at) {
            (
                EngineState {
                    repeat: Some(crate::engine::Repeat { next_at: now.wrapping_add(s.repeat_interval_ms), ..r }),
                    ..s
                },
                crate::engine::emit_of(out, r.action),
            )
        } else {
            (s, out)
        },
        None => (s, out),
    };
    lemma_frame(s);
    lemma_frame(s0);
    if let Some((a, b, t)) = s0.pend3 {
        lemma_pair_consistent(EngineState { pend3: None, ..s0 }, out0, a, b, now, false);
    }
}

/// A new engine's bookkeeping is consistent (nothing held).
pub proof fn lemma_initial_consistent(window_ms: u32, overlay: &'static crate::keymap::Overlay)
    ensures
        shifts_consistent(crate::engine::initial_state(window_ms, overlay)),
{
    assert forall|b: u8| one_bit(b) implies (0u8 & b) == 0 by {
        assert(0u8 & b == 0) by (bit_vector);
    }
    assert(0u8 & 0xc0 == 0) by (bit_vector);
}

} // verus!
