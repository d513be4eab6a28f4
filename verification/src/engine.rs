//! Chord resolution engine (Naginata shift system, independent of key order).
//!
//! Input: key press / release / tick events with millisecond timestamps.
//! Output: `Action`s appended to a vector, in emission order.
//!
//! Model:
//!   - `pending`: one key whose role is not decided yet (the next key resolves
//!     the pair, or it is flushed as a single stroke).
//!   - `held_shifts`: the shift mask of the keys committed as held shifts, so
//!     that a shift keeps applying to several bases.
//!   - two-key resolution (`resolve_pair`) chooses a valid (shift, base)
//!     assignment whatever the order of the presses, so a shift key can be the
//!     base of another shift key (voiced か + right voiced key = が in both orders).
//!   - a pending shift key is not flushed by a tick (it waits for a base).
use vstd::prelude::*;

use crate::assoc::{assoc, first_index};
use crate::keymap::{
    self, chords_hold_pair, combo2_key_of, combo2_of, combo3_key_of, combo3_of, layer_key_of,
    layer_lookup_of, layers_get, mode_of, Overlay,
};
use crate::layout::{SHIFT_KEYS, WINDOW_MS};
use crate::hid::KeyPress;
use crate::Action;

pub mod laws;

verus! {

/// Capacity of the list of committed shift keys.
pub const MAX_HELD: usize = 8;

/// Default key repeat delay and interval (ms).
pub const REPEAT_DELAY_MS: u32 = 300;
pub const REPEAT_INTERVAL_MS: u32 = 40;

/// Usages that repeat while held (single key, no modifier): BackSpace,
/// Delete, Right, Left, Down, Up.
pub const REPEAT_USAGES: [u8; 6] = [0x2a, 0x4c, 0x4f, 0x50, 0x51, 0x52];

/// A held control key being repeated.
#[derive(Clone, Copy)]
pub struct Repeat {
    /// The key held down (released: repetition stops).
    pub sc: u8,
    /// The action sent again.
    pub action: Action,
    /// When it is sent next (ms).
    pub next_at: u32,
}

/// Whether `action` is one key without modifier among `REPEAT_USAGES`.
pub open spec fn repeatable(action: Action) -> bool {
    match action {
        Action::Keys(k) => k@.len() == 1 && k@[0].modifiers == 0 && REPEAT_USAGES@.contains(
            k@[0].usage,
        ),
        _ => false,
    }
}

fn is_repeatable(action: Action) -> (r: bool)
    ensures
        r == repeatable(action),
{
    match action {
        Action::Keys(k) => {
            if k.len() != 1 || k[0].modifiers != 0 {
                return false;
            }
            let u = k[0].usage;
            let mut i: usize = 0;
            while i < REPEAT_USAGES.len()
                invariant
                    i <= REPEAT_USAGES@.len(),
                    k@.len() == 1,
                    k@[0].modifiers == 0,
                    action == Action::Keys(k),
                    u == k@[0].usage,
                    forall|j: int| 0 <= j < i ==> REPEAT_USAGES@[j] != u,
                decreases REPEAT_USAGES@.len() - i,
            {
                if REPEAT_USAGES[i] == u {
                    assert(REPEAT_USAGES@[i as int] == u);
                    assert(REPEAT_USAGES@.contains(u));
                    assert(repeatable(action));
                    return true;
                }
                i += 1;
            }
            false
        },
        _ => false,
    }
}

pub struct Engine {
    window_ms: u32,
    held_shifts: u8,
    shift_src: Vec<(u8, u8)>,
    pending: Option<(u8, u32)>,
    pend3: Option<(u8, u8, u32)>,
    mode: Option<u8>,
    mode_keys: (u8, u8),
    repeat: Option<Repeat>,
    repeat_delay_ms: u32,
    repeat_interval_ms: u32,
    overlay: &'static Overlay,
}

/// The state of an engine.
pub struct EngineState {
    /// Chord window (ms).
    pub window_ms: u32,
    /// Mask of the committed held shifts.
    pub held_shifts: u8,
    /// The committed shift keys with their bit, in commit order.
    pub shift_src: Seq<(u8, u8)>,
    /// Key whose role is undecided, with its press time.
    pub pending: Option<(u8, u32)>,
    /// Two keys waiting for a third chord key, with the time they were paired.
    pub pend3: Option<(u8, u8, u32)>,
    /// Active editing mode.
    pub mode: Option<u8>,
    /// The two keys that triggered the editing mode.
    pub mode_keys: (u8, u8),
    /// Held control key being repeated.
    pub repeat: Option<Repeat>,
    pub repeat_delay_ms: u32,
    pub repeat_interval_ms: u32,
    /// Runtime overlay of the layout.
    pub overlay: &'static Overlay,
}

impl View for Engine {
    type V = EngineState;

    closed spec fn view(&self) -> EngineState {
        EngineState {
            window_ms: self.window_ms,
            held_shifts: self.held_shifts,
            shift_src: self.shift_src@,
            pending: self.pending,
            pend3: self.pend3,
            mode: self.mode,
            mode_keys: self.mode_keys,
            repeat: self.repeat,
            repeat_delay_ms: self.repeat_delay_ms,
            repeat_interval_ms: self.repeat_interval_ms,
            overlay: self.overlay,
        }
    }
}

/// The state of a new engine with chord window `window_ms`.
pub open spec fn initial_state(window_ms: u32, overlay: &'static Overlay) -> EngineState {
    EngineState {
        window_ms,
        held_shifts: 0,
        shift_src: Seq::empty(),
        pending: None,
        pend3: None,
        mode: None,
        mode_keys: (0, 0),
        repeat: None,
        repeat_delay_ms: REPEAT_DELAY_MS,
        repeat_interval_ms: REPEAT_INTERVAL_MS,
        overlay,
    }
}

pub open spec fn shift_bit(sc: u8) -> Option<u8> {
    assoc(SHIFT_KEYS@, sc)
}

/// Layer resolution with the overlay laid over the layout. Mask != 0:
/// overlay(mask, sc) > layout(mask, sc) > overlay(0, sc) > layout(0, sc).
/// Mask == 0: overlay(0, sc) > layout(0, sc).
pub open spec fn resolve_of(s: EngineState, mask: u8, sc: u8) -> Action {
    let base = match assoc(s.overlay.layers@, layer_key_of(0, sc)) {
        Some(a) => a,
        None => layer_lookup_of(0, sc),
    };
    if mask != 0 {
        match assoc(s.overlay.layers@, layer_key_of(mask, sc)) {
            Some(a) => a,
            None => if layers_get(layer_key_of(mask, sc)) is Some {
                layer_lookup_of(mask, sc)
            } else {
                base
            },
        }
    } else {
        base
    }
}

/// Whether an exact (mask, sc) entry exists, in the overlay or the layout.
pub open spec fn has_layer_of(s: EngineState, mask: u8, sc: u8) -> bool {
    assoc(s.overlay.layers@, layer_key_of(mask, sc)) is Some || layers_get(
        layer_key_of(mask, sc),
    ) is Some
}

pub open spec fn combo2_act(s: EngineState, a: u8, b: u8) -> Action {
    match assoc(s.overlay.combo2@, combo2_key_of(a, b)) {
        Some(x) => x,
        None => combo2_of(a, b),
    }
}

pub open spec fn combo3_act(s: EngineState, a: u8, b: u8, c: u8) -> Action {
    match assoc(s.overlay.combo3@, combo3_key_of(a, b, c)) {
        Some(x) => x,
        None => combo3_of(a, b, c),
    }
}

pub open spec fn mode_act(s: EngineState, mode: u8, sc: u8) -> Action {
    match assoc(s.overlay.modes@, layer_key_of(mode, sc)) {
        Some(x) => x,
        None => mode_of(mode, sc),
    }
}

/// Whether {a, b} is part of a three-key chord of the layout or the overlay.
pub open spec fn prefix_of(s: EngineState, a: u8, b: u8) -> bool {
    chords_hold_pair(crate::layout::COMBO3@, a, b) || chords_hold_pair(s.overlay.combo3@, a, b)
}

/// `out` with `a` appended unless it is `Undefined`.
pub open spec fn emit_of(out: Seq<Action>, a: Action) -> Seq<Action> {
    if a is Undefined {
        out
    } else {
        out.push(a)
    }
}

/// Commit `sc` as a held shift with `bit` (nothing when the bit is held).
pub open spec fn commit_of(s: EngineState, sc: u8, bit: u8) -> EngineState {
    if s.held_shifts & bit == 0 {
        EngineState {
            held_shifts: s.held_shifts | bit,
            shift_src: if s.shift_src.len() < MAX_HELD {
                s.shift_src.push((sc, bit))
            } else {
                s.shift_src
            },
            ..s
        }
    } else {
        s
    }
}

/// Flush the pending key as a single stroke under the held shifts; also
/// returns the key and action flushed.
pub open spec fn flush_of(s: EngineState, out: Seq<Action>) -> (EngineState, Seq<Action>, Option<(u8, Action)>) {
    match s.pending {
        Some((p, _)) => {
            let a = resolve_of(s, s.held_shifts, p);
            (EngineState { pending: None, ..s }, emit_of(out, a), Some((p, a)))
        },
        None => (s, out, None),
    }
}

/// Resolution of two keys `p` (first) and `k` (second):
/// 0. an editing mode trigger enters the mode (no output);
/// 0.5. with `defer`, a pair that is part of a three-key chord waits for a third key;
/// 1. `p` shift, `k` its base; 2. `k` shift, `p` its base;
/// 3. both shifts: both are committed (waiting for a base);
/// 4. only `p` shift: `p` held, `k` resolved under it (with fallback);
/// 5. only `k` shift: `p` single, `k` held;
/// 6. no shift: a two-key chord, else `p` single and `k` pending.
pub open spec fn resolve_pair_of(
    s: EngineState,
    out: Seq<Action>,
    p: u8,
    k: u8,
    now: u32,
    defer: bool,
) -> (EngineState, Seq<Action>) {
    match assoc(crate::layout::MODE_TRIGGERS@, combo2_key_of(p, k)) {
        Some(mode) => (EngineState { mode: Some(mode), mode_keys: (p, k), ..s }, out),
        None => if defer && prefix_of(s, p, k) {
            (EngineState { pend3: Some((p, k, now)), ..s }, out)
        } else {
            match (shift_bit(p), shift_bit(k)) {
                (Some(bp), _) if has_layer_of(s, bp, k) => (
                    commit_of(s, p, bp),
                    emit_of(out, resolve_of(s, bp, k)),
                ),
                (_, Some(bk)) if has_layer_of(s, bk, p) => (
                    commit_of(s, k, bk),
                    emit_of(out, resolve_of(s, bk, p)),
                ),
                (Some(bp), Some(bk)) => (commit_of(commit_of(s, p, bp), k, bk), out),
                (Some(bp), None) => (commit_of(s, p, bp), emit_of(out, resolve_of(s, bp, k))),
                (None, Some(bk)) => (commit_of(s, k, bk), emit_of(out, resolve_of(s, 0, p))),
                (None, None) => {
                    let combo = combo2_act(s, p, k);
                    if !(combo is Undefined) {
                        (s, out.push(combo))
                    } else {
                        (
                            EngineState { pending: Some((k, now)), ..s },
                            emit_of(out, resolve_of(s, 0, p)),
                        )
                    }
                },
            }
        },
    }
}

/// Key press of `sc` at `now`.
pub open spec fn press_of(s: EngineState, out: Seq<Action>, sc: u8, now: u32) -> (EngineState, Seq<Action>) {
    match s.mode {
        Some(mode) => if sc != s.mode_keys.0 && sc != s.mode_keys.1 {
            let action = mode_act(s, mode, sc);
            (
                EngineState {
                    repeat: if repeatable(action) {
                        Some(Repeat { sc, action, next_at: now.wrapping_add(s.repeat_delay_ms) })
                    } else {
                        None
                    },
                    ..s
                },
                emit_of(out, action),
            )
        } else {
            (s, out)
        },
        None => {
            let s0 = EngineState { pend3: None, ..s };
            let k3 = match s.pend3 {
                Some((a, b, _)) => combo3_act(s, a, b, sc),
                None => Action::Undefined,
            };
            if s.pend3 is Some && !(k3 is Undefined) {
                (s0, out.push(k3))
            } else {
                let (s1, out1) = match s.pend3 {
                    Some((a, b, _)) => resolve_pair_of(s0, out, a, b, now, false),
                    None => (s, out),
                };
                if s1.held_shifts != 0 {
                    match shift_bit(sc) {
                        Some(bit) => if has_layer_of(s1, s1.held_shifts, sc) {
                            (s1, emit_of(out1, resolve_of(s1, s1.held_shifts, sc)))
                        } else {
                            (commit_of(s1, sc, bit), out1)
                        },
                        None => (s1, emit_of(out1, resolve_of(s1, s1.held_shifts, sc))),
                    }
                } else {
                    match s1.pending {
                        None => (EngineState { pending: Some((sc, now)), ..s1 }, out1),
                        Some((p, _)) => resolve_pair_of(
                            EngineState { pending: None, ..s1 },
                            out1,
                            p,
                            sc,
                            now,
                            true,
                        ),
                    }
                }
            }
        },
    }
}

/// The committed shifts without the entry at `i` (the last entry takes its place).
pub open spec fn swap_remove_of(v: Seq<(u8, u8)>, i: int) -> Seq<(u8, u8)> {
    v.update(i, v.last()).drop_last()
}

/// Release of `sc` as a held shift: its entry leaves the committed shifts
/// and its bit leaves the mask.
pub open spec fn release_shift_of(s: EngineState, sc: u8) -> EngineState {
    if exists|i: int| first_index(s.shift_src, sc, i) {
        let i = choose|i: int| first_index(s.shift_src, sc, i);
        let bit = s.shift_src[i].1;
        EngineState {
            held_shifts: s.held_shifts & !bit,
            shift_src: swap_remove_of(s.shift_src, i),
            ..s
        }
    } else {
        s
    }
}

/// Key release of `sc` at `now`.
pub open spec fn release_of(s: EngineState, out: Seq<Action>, sc: u8, now: u32) -> (EngineState, Seq<Action>) {
    let s0 = match s.repeat {
        Some(r) => if r.sc == sc {
            EngineState { repeat: None, ..s }
        } else {
            s
        },
        None => s,
    };
    if s0.mode is Some && (sc == s0.mode_keys.0 || sc == s0.mode_keys.1) {
        (EngineState { mode: None, repeat: None, ..s0 }, out)
    } else if s0.mode is Some {
        (s0, out)
    } else {
        let (s1, out1) = match s0.pend3 {
            Some((a, b, _)) => if sc == a || sc == b {
                resolve_pair_of(EngineState { pend3: None, ..s0 }, out, a, b, now, false)
            } else {
                (s0, out)
            },
            None => (s0, out),
        };
        let s2 = release_shift_of(s1, sc);
        match s2.pending {
            Some((p, _)) => if p == sc {
                let (s3, out3, _) = flush_of(s2, out1);
                (s3, out3)
            } else {
                (s2, out1)
            },
            None => (s2, out1),
        }
    }
}

/// Whether `now` has reached `at` (wrapping clock).
pub open spec fn reached(now: u32, at: u32) -> bool {
    (now.wrapping_sub(at) as i32) >= 0
}

/// Timer tick at `now`.
pub open spec fn tick_of(s: EngineState, out: Seq<Action>, now: u32) -> (EngineState, Seq<Action>) {
    let (s0, out0) = match s.repeat {
        Some(r) => if reached(now, r.next_at) {
            (
                EngineState {
                    repeat: Some(Repeat { next_at: now.wrapping_add(s.repeat_interval_ms), ..r }),
                    ..s
                },
                emit_of(out, r.action),
            )
        } else {
            (s, out)
        },
        None => (s, out),
    };
    match s0.pend3 {
        Some((a, b, t)) => if now.wrapping_sub(t) > s0.window_ms {
            resolve_pair_of(EngineState { pend3: None, ..s0 }, out0, a, b, now, false)
        } else {
            (s0, out0)
        },
        None => match s0.pending {
            Some((p, t)) => if shift_bit(p) is None && now.wrapping_sub(t) > s0.window_ms {
                let (s1, out1, flushed) = flush_of(s0, out0);
                match flushed {
                    Some((fsc, action)) => if repeatable(action) {
                        (
                            EngineState {
                                repeat: Some(
                                    Repeat {
                                        sc: fsc,
                                        action,
                                        next_at: now.wrapping_add(s1.repeat_delay_ms),
                                    },
                                ),
                                ..s1
                            },
                            out1,
                        )
                    } else {
                        (s1, out1)
                    },
                    None => (s1, out1),
                }
            } else {
                (s0, out0)
            },
            None => (s0, out0),
        },
    }
}

/// Display mask: the held shifts and the bit of a pending shift key.
pub open spec fn display_of(s: EngineState) -> u8 {
    match s.pending {
        Some((p, _)) => match shift_bit(p) {
            Some(bit) => s.held_shifts | bit,
            None => s.held_shifts,
        },
        None => s.held_shifts,
    }
}

fn emit(out: &mut Vec<Action>, a: Action)
    ensures
        final(out)@ == emit_of(old(out)@, a),
{
    if !a.is_undefined() {
        out.push(a);
    }
}

impl Engine {
    pub fn new() -> (r: Self)
        ensures
            r@ == initial_state(WINDOW_MS, r@.overlay),
            r@.overlay.layers@.len() == 0,
            r@.overlay.combo2@.len() == 0,
            r@.overlay.combo3@.len() == 0,
            r@.overlay.modes@.len() == 0,
    {
        Self::with_window(WINDOW_MS)
    }

    pub fn with_window(window_ms: u32) -> (r: Self)
        ensures
            r@ == initial_state(window_ms, r@.overlay),
            r@.overlay.layers@.len() == 0,
            r@.overlay.combo2@.len() == 0,
            r@.overlay.combo3@.len() == 0,
            r@.overlay.modes@.len() == 0,
    {
        Engine {
            window_ms,
            held_shifts: 0,
            shift_src: Vec::new(),
            pending: None,
            pend3: None,
            mode: None,
            mode_keys: (0, 0),
            repeat: None,
            repeat_delay_ms: REPEAT_DELAY_MS,
            repeat_interval_ms: REPEAT_INTERVAL_MS,
            overlay: keymap::empty_overlay(),
        }
    }

    pub fn set_window(&mut self, window_ms: u32)
        ensures
            final(self)@ == (EngineState { window_ms, ..old(self)@ }),
    {
        self.window_ms = window_ms;
    }

    /// Sets the runtime overlay (the empty overlay restores the layout).
    pub fn set_overlay(&mut self, overlay: &'static Overlay)
        ensures
            final(self)@ == (EngineState { overlay, ..old(self)@ }),
    {
        self.overlay = overlay;
    }

    /// Key repeat timing: `delay_ms` from the press to the first repeat,
    /// `interval_ms` between repeats.
    pub fn set_repeat(&mut self, delay_ms: u32, interval_ms: u32)
        ensures
            final(self)@ == (EngineState {
                repeat_delay_ms: delay_ms,
                repeat_interval_ms: interval_ms,
                ..old(self)@
            }),
    {
        self.repeat_delay_ms = delay_ms;
        self.repeat_interval_ms = interval_ms;
    }

    /// The mask of the held shifts.
    pub fn held_shifts(&self) -> (r: u8)
        ensures
            r == self@.held_shifts,
    {
        self.held_shifts
    }

    /// Mask for the status display: held shifts plus a pending shift key
    /// (a shift key pressed alone is held only once the next key comes).
    pub fn display_shifts(&self) -> (r: u8)
        ensures
            r == display_of(self@),
    {
        let mut m = self.held_shifts;
        if let Some((p, _)) = self.pending {
            if let Some(bit) = keymap::shift_mask_of(p) {
                m |= bit;
            }
        }
        m
    }

    fn resolve(&self, mask: u8, sc: u8) -> (r: Action)
        ensures
            r == resolve_of(self@, mask, sc),
    {
        if mask != 0 {
            if let Some(a) = self.overlay.find_layer(mask, sc) {
                return a;
            }
            if keymap::layer_has(mask, sc) {
                return keymap::layer_lookup(mask, sc);
            }
        }
        if let Some(a) = self.overlay.find_layer(0, sc) {
            return a;
        }
        keymap::layer_lookup(0, sc)
    }

    fn has_layer(&self, mask: u8, sc: u8) -> (r: bool)
        ensures
            r == has_layer_of(self@, mask, sc),
    {
        self.overlay.find_layer(mask, sc).is_some() || keymap::layer_has(mask, sc)
    }

    fn combo2(&self, a: u8, b: u8) -> (r: Action)
        ensures
            r == combo2_act(self@, a, b),
    {
        if let Some(x) = self.overlay.find_combo2(a, b) {
            return x;
        }
        keymap::combo2_lookup(a, b)
    }

    fn combo3(&self, a: u8, b: u8, c: u8) -> (r: Action)
        ensures
            r == combo3_act(self@, a, b, c),
    {
        if let Some(x) = self.overlay.find_combo3(a, b, c) {
            return x;
        }
        keymap::combo3_lookup(a, b, c)
    }

    fn mode_action(&self, mode: u8, sc: u8) -> (r: Action)
        ensures
            r == mode_act(self@, mode, sc),
    {
        if let Some(x) = self.overlay.find_mode(mode, sc) {
            return x;
        }
        keymap::mode_lookup(mode, sc)
    }

    fn is_combo3_prefix(&self, a: u8, b: u8) -> (r: bool)
        ensures
            r == prefix_of(self@, a, b),
    {
        keymap::is_combo3_prefix(a, b) || self.overlay.has_combo3_prefix(a, b)
    }

    /// Index of the first committed shift entry of `sc`.
    fn find_src(&self, sc: u8) -> (r: Option<usize>)
        ensures
            match r {
                Some(i) => first_index(self@.shift_src, sc, i as int),
                None => forall|j: int|
                    0 <= j < self@.shift_src.len() ==> #[trigger] self@.shift_src[j].0 != sc,
            },
    {
        let mut i: usize = 0;
        while i < self.shift_src.len()
            invariant
                i <= self@.shift_src.len(),
                forall|j: int| 0 <= j < i ==> #[trigger] self@.shift_src[j].0 != sc,
            decreases self@.shift_src.len() - i,
        {
            if self.shift_src[i].0 == sc {
                return Some(i);
            }
            i += 1;
        }
        None
    }

    fn commit(&mut self, sc: u8, bit: u8)
        ensures
            final(self)@ == commit_of(old(self)@, sc, bit),
    {
        if self.held_shifts & bit == 0 {
            self.held_shifts |= bit;
            if self.shift_src.len() < MAX_HELD {
                self.shift_src.push((sc, bit));
            }
        }
    }

    fn flush_pending(&mut self, out: &mut Vec<Action>) -> (r: Option<(u8, Action)>)
        ensures
            (final(self)@, final(out)@, r) == flush_of(old(self)@, old(out)@),
    {
        if let Some((p, _)) = self.pending {
            let a = self.resolve(self.held_shifts, p);
            self.pending = None;
            emit(out, a);
            Some((p, a))
        } else {
            None
        }
    }

    fn resolve_pair(&mut self, p: u8, k: u8, now: u32, out: &mut Vec<Action>, allow_defer: bool)
        ensures
            (final(self)@, final(out)@) == resolve_pair_of(
                old(self)@,
                old(out)@,
                p,
                k,
                now,
                allow_defer,
            ),
    {
        if let Some(mode) = keymap::mode_trigger(p, k) {
            self.mode = Some(mode);
            self.mode_keys = (p, k);
            return;
        }
        if allow_defer && self.is_combo3_prefix(p, k) {
            self.pend3 = Some((p, k, now));
            return;
        }
        let mp = keymap::shift_mask_of(p);
        let mk = keymap::shift_mask_of(k);
        if let Some(bp) = mp {
            if self.has_layer(bp, k) {
                let a = self.resolve(bp, k);
                emit(out, a);
                self.commit(p, bp);
                return;
            }
        }
        if let Some(bk) = mk {
            if self.has_layer(bk, p) {
                let a = self.resolve(bk, p);
                emit(out, a);
                self.commit(k, bk);
                return;
            }
        }
        if let (Some(bp), Some(bk)) = (mp, mk) {
            self.commit(p, bp);
            self.commit(k, bk);
            return;
        }
        if let Some(bp) = mp {
            self.commit(p, bp);
            let a = self.resolve(bp, k);
            emit(out, a);
            return;
        }
        if let Some(bk) = mk {
            let a = self.resolve(0, p);
            emit(out, a);
            self.commit(k, bk);
            return;
        }
        let combo = self.combo2(p, k);
        if !combo.is_undefined() {
            out.push(combo);
            return;
        }
        let a = self.resolve(0, p);
        emit(out, a);
        self.pending = Some((k, now));
    }

    /// Key press of `sc` at `now`; the actions it resolves are appended to `out`.
    pub fn press(&mut self, sc: u8, now: u32, out: &mut Vec<Action>)
        ensures
            (final(self)@, final(out)@) == press_of(old(self)@, old(out)@, sc, now),
    {
        if let Some(mode) = self.mode {
            if sc != self.mode_keys.0 && sc != self.mode_keys.1 {
                let action = self.mode_action(mode, sc);
                emit(out, action);
                self.repeat = if is_repeatable(action) {
                    Some(Repeat { sc, action, next_at: now.wrapping_add(self.repeat_delay_ms) })
                } else {
                    None
                };
            }
            return;
        }
        if let Some((a, b, _)) = self.pend3 {
            self.pend3 = None;
            let k3 = self.combo3(a, b, sc);
            if !k3.is_undefined() {
                out.push(k3);
                return;
            }
            self.resolve_pair(a, b, now, out, false);
        }
        if self.held_shifts != 0 {
            match keymap::shift_mask_of(sc) {
                Some(bit) => {
                    if self.has_layer(self.held_shifts, sc) {
                        let a = self.resolve(self.held_shifts, sc);
                        emit(out, a);
                    } else {
                        self.commit(sc, bit);
                    }
                },
                None => {
                    let a = self.resolve(self.held_shifts, sc);
                    emit(out, a);
                },
            }
            return;
        }
        match self.pending {
            None => self.pending = Some((sc, now)),
            Some((p, _)) => {
                self.pending = None;
                self.resolve_pair(p, sc, now, out, true);
            },
        }
    }

    /// Key release of `sc` at `now`; the actions it resolves are appended to `out`.
    pub fn release(&mut self, sc: u8, now: u32, out: &mut Vec<Action>)
        ensures
            (final(self)@, final(out)@) == release_of(old(self)@, old(out)@, sc, now),
    {
        if let Some(r) = self.repeat {
            if r.sc == sc {
                self.repeat = None;
            }
        }
        if self.mode.is_some() && (sc == self.mode_keys.0 || sc == self.mode_keys.1) {
            self.mode = None;
            self.repeat = None;
            return;
        }
        if self.mode.is_some() {
            return;
        }
        if let Some((a, b, _)) = self.pend3 {
            if sc == a || sc == b {
                self.pend3 = None;
                self.resolve_pair(a, b, now, out, false);
            }
        }
        let ghost s1 = self@;
        let ghost out1 = out@;
        match self.find_src(sc) {
            Some(i) => {
                proof {
                    assert forall|j: int| first_index(s1.shift_src, sc, j) implies j == i by {
                        if j < i {
                            assert(s1.shift_src[j].0 != sc);
                        } else if j > i {
                            assert(s1.shift_src[i as int].0 != sc);
                        }
                    }
                }
                let (_, bit) = self.shift_src.swap_remove(i);
                self.held_shifts &= !bit;
                proof {
                    let ci = choose|j: int| first_index(s1.shift_src, sc, j);
                    assert(first_index(s1.shift_src, sc, ci));
                    assert(ci == i);
                    assert(self@.shift_src =~= swap_remove_of(s1.shift_src, i as int));
                    assert(self@ == (EngineState {
                        held_shifts: s1.held_shifts & !s1.shift_src[ci].1,
                        shift_src: swap_remove_of(s1.shift_src, ci),
                        ..s1
                    }));
                }
            },
            None => {
                proof {
                    assert forall|j: int| !first_index(s1.shift_src, sc, j) by {
                        if 0 <= j < s1.shift_src.len() {
                            assert(s1.shift_src[j].0 == s1.shift_src[j].0);
                        }
                    }
                }
            },
        }
        assert(self@ == release_shift_of(s1, sc));
        assert(out@ == out1);
        if let Some((p, _)) = self.pending {
            if p == sc {
                let _ = self.flush_pending(out);
            }
        }
    }

    /// Timer tick at `now`; the actions it resolves are appended to `out`.
    pub fn tick(&mut self, now: u32, out: &mut Vec<Action>)
        ensures
            (final(self)@, final(out)@) == tick_of(old(self)@, old(out)@, now),
    {
        let interval = self.repeat_interval_ms;
        if let Some(r) = self.repeat {
            if (now.wrapping_sub(r.next_at) as i32) >= 0 {
                self.repeat = Some(Repeat { sc: r.sc, action: r.action, next_at: now.wrapping_add(interval) });
                emit(out, r.action);
            }
        }
        if let Some((a, b, t)) = self.pend3 {
            if now.wrapping_sub(t) > self.window_ms {
                self.pend3 = None;
                self.resolve_pair(a, b, now, out, false);
            }
            return;
        }
        if let Some((p, t)) = self.pending {
            if keymap::shift_mask_of(p).is_none() && now.wrapping_sub(t) > self.window_ms {
                if let Some((sc, action)) = self.flush_pending(out) {
                    if is_repeatable(action) {
                        self.repeat = Some(
                            Repeat { sc, action, next_at: now.wrapping_add(self.repeat_delay_ms) },
                        );
                    }
                }
            }
        }
    }
}

impl Default for Engine {
    fn default() -> (r: Self)
        ensures
            r@ == initial_state(WINDOW_MS, r@.overlay),
            r@.overlay.layers@.len() == 0,
            r@.overlay.combo2@.len() == 0,
            r@.overlay.combo3@.len() == 0,
            r@.overlay.modes@.len() == 0,
    {
        Self::new()
    }
}

} // verus!
