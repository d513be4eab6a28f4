//! What the keyboard firmware decides: packed key positions, status LED
//! colors, the overlay built from the stored configuration, where a key
//! event goes, and the HID strokes of an action.
use vstd::prelude::*;

use vstd::utf8::*;

use crate::config::{
    config_wf, entries_wf, val_wf, view_keyed2, view_keyed3, view_pairs, view_triples, Config,
    ConfigView, OverrideVal, Val,
};
use crate::hid::KeyPress;
use crate::assoc::{assoc, lookup_u16};
use crate::engine::{display_of, press_of, release_of, tick_of, Engine};
use crate::hid::{ascii_to_hid, romaji_keys, romaji_to_hid};
use crate::keymap::{
    combo2_key, combo2_key_of, combo3_key, combo3_key_of, layer_key, layer_key_of, matrix_of,
    matrix_pos, matrix_to_sc, Hand, Overlay,
};
use crate::romaji::{capped, kana_to_romaji, romaji_of};
use crate::usb_hid::{release_report, report_for, report_of};
use crate::layout::{SH_CENTER, SH_DAKU_L, SH_DAKU_R, SH_HANDAKU_L, SH_HANDAKU_R, SH_SMALL};
use crate::Action;

verus! {

// ---------------------------------------------------------------------
// Key positions
// ---------------------------------------------------------------------

/// 0 for the left half, 1 for the right.
pub open spec fn hand_bit(hand: Hand) -> u16 {
    match hand {
        Hand::Left => 0,
        Hand::Right => 1,
    }
}

/// A physical position packed in 16 bits: hand at bit 12, row at bit 4,
/// col at bit 0.
pub open spec fn pack_pos_of(hand: Hand, row: u8, col: u8) -> u16 {
    ((hand_bit(hand) << 12u16) | ((row as u16) << 4u16) | (col as u16)) as u16
}

/// Packs a physical position (the hand's bit, row and col of four bits
/// each when they fit).
pub fn pack_pos(hand: Hand, row: u8, col: u8) -> (r: u16)
    ensures
        r == pack_pos_of(hand, row, col),
        row < 16 && col < 16 ==> r == hand_bit(hand) * 4096 + row * 16 + col,
{
    let h: u16 = match hand {
        Hand::Left => 0,
        Hand::Right => 1,
    };
    let r: u16 = (h << 12) | ((row as u16) << 4) | (col as u16);
    assert(row < 16 && col < 16 && h < 2 ==> r == h * 4096 + row * 16 + col) by (bit_vector)
        requires
            r == (h << 12) | ((row as u16) << 4) | (col as u16),
    ;
    r
}

// ---------------------------------------------------------------------
// Status LED
// ---------------------------------------------------------------------

/// An LED color.
#[derive(Clone, Copy, Debug, PartialEq, Eq, Structural)]
pub struct Rgb {
    pub r: u8,
    pub g: u8,
    pub b: u8,
}

/// Shift mask bits shown by the LED.
pub const LED_CENTER: u8 = SH_CENTER;
pub const LED_DAKUTEN: u8 = SH_DAKU_R | SH_DAKU_L;
pub const LED_HANDAKU: u8 = SH_HANDAKU_R | SH_HANDAKU_L;
pub const LED_SMALL: u8 = SH_SMALL;

/// A channel scaled by brightness `b` (255 keeps it).
pub open spec fn scale_of(v: u8, b: u8) -> u8 {
    ((v * b) / 255) as u8
}

/// A color scaled by brightness `b` (0..=255; 255 keeps the color).
pub fn scale_rgb(c: Rgb, b: u8) -> (r: Rgb)
    ensures
        r == (Rgb { r: scale_of(c.r, b), g: scale_of(c.g, b), b: scale_of(c.b, b) }),
{
    Rgb { r: scale(c.r, b), g: scale(c.g, b), b: scale(c.b, b) }
}

fn scale(v: u8, b: u8) -> (r: u8)
    ensures
        r == scale_of(v, b),
{
    assert(v * b <= 255 * 255) by (nonlinear_arith)
        requires
            v <= 255,
            b <= 255,
    ;
    let p: u16 = v as u16 * b as u16;
    (p / 255) as u8
}

/// The color of a shift mask: red for the voiced mark, yellow for the
/// semi-voiced mark, cyan for the center shift, blue for small kana; marks
/// held together mix.
pub open spec fn shift_color_of(s: u8) -> Rgb {
    let daku = s & LED_DAKUTEN != 0;
    let handaku = s & LED_HANDAKU != 0;
    let center = s & LED_CENTER != 0;
    let small = s & LED_SMALL != 0;
    Rgb {
        r: if daku || handaku {
            40
        } else {
            0
        },
        g: if handaku || center {
            32
        } else {
            0
        },
        b: if center || small {
            40
        } else {
            0
        },
    }
}

/// The color of a shift mask.
pub fn shift_color(s: u8) -> (r: Rgb)
    ensures
        r == shift_color_of(s),
{
    let mut r: u8 = 0;
    let mut g: u8 = 0;
    let mut b: u8 = 0;
    if s & LED_DAKUTEN != 0 {
        r = 40;
    }
    if s & LED_HANDAKU != 0 {
        r = 40;
        g = 32;
    }
    if s & LED_CENTER != 0 {
        g = 32;
        b = 40;
    }
    if s & LED_SMALL != 0 {
        b = 40;
    }
    Rgb { r, g, b }
}

/// The color of the role: green for the master, blue for the secondary.
pub open spec fn role_color_of(master: bool) -> Rgb {
    if master {
        Rgb { r: 0, g: 24, b: 0 }
    } else {
        Rgb { r: 0, g: 0, b: 24 }
    }
}

/// The color of both LEDs: the shift color while a shift is shown, else
/// the role color.
pub open spec fn status_color_of(master: bool, s: u8) -> Rgb {
    if s != 0 {
        shift_color_of(s)
    } else {
        role_color_of(master)
    }
}

/// The colors of the two LEDs (both the same, so one LED is enough).
pub fn status_colors(master: bool, s: u8) -> (r: [Rgb; 2])
    ensures
        r@ == seq![status_color_of(master, s), status_color_of(master, s)],
{
    let role = if master {
        Rgb { r: 0, g: 24, b: 0 }
    } else {
        Rgb { r: 0, g: 0, b: 24 }
    };
    let c = if s != 0 {
        shift_color(s)
    } else {
        role
    };
    let r = [c, c];
    assert(r@ =~= seq![status_color_of(master, s), status_color_of(master, s)]);
    r
}

/// Ticks a shown shift stays latched after it is released (so a brief
/// chord is visible).
pub const LATCH_TICKS: u8 = 3;
/// Ticks between repeated sends of the shift state to the secondary.
pub const HEARTBEAT_TICKS: u8 = 25;

/// The status LED loop's state.
#[derive(Clone, Copy, Debug, PartialEq, Eq, Structural)]
pub struct LedState {
    /// The shift state shown.
    pub latch: u8,
    /// Ticks left to keep it after the shift is released.
    pub hold: u8,
    /// The shift state last sent to the secondary.
    pub last_sent: u8,
    /// Ticks since it was last sent.
    pub heartbeat: u8,
}

impl LedState {
    /// Nothing shown, nothing sent yet (the first tick of the master sends).
    pub fn new() -> (r: Self)
        ensures
            r == (LedState { latch: 0, hold: 0, last_sent: 0xff, heartbeat: 0 }),
    {
        LedState { latch: 0, hold: 0, last_sent: 0xff, heartbeat: 0 }
    }

    /// The heartbeat has not reached its period.
    pub open spec fn wf(self) -> bool {
        self.heartbeat < HEARTBEAT_TICKS
    }
}

/// One tick of the status LED loop with the current shift state `cur`:
/// - the master sends `cur` to the secondary when it changed, and every
///   `HEARTBEAT_TICKS` ticks anyway;
/// - a nonzero `cur` is latched for `LATCH_TICKS` ticks after it ends;
/// - both LEDs show the latched state's color, scaled by `brightness`.
pub open spec fn led_step_of(st: LedState, master: bool, cur: u8) -> (LedState, Option<u8>) {
    let beat = (st.heartbeat + 1) as u8;
    let send = master && (cur != st.last_sent || beat >= HEARTBEAT_TICKS);
    let sent = if send {
        cur
    } else {
        st.last_sent
    };
    let heartbeat = if !master {
        st.heartbeat
    } else if send {
        0
    } else {
        beat
    };
    let (latch, hold) = if cur != 0 {
        (cur, LATCH_TICKS)
    } else if st.hold > 0 {
        (st.latch, (st.hold - 1) as u8)
    } else {
        (0u8, st.hold)
    };
    (LedState { latch, hold, last_sent: sent, heartbeat }, if send {
        Some(cur)
    } else {
        None
    })
}

/// One tick of the status LED loop: the new state, the shift state to send
/// to the secondary, and the two LED colors.
pub fn led_step(st: LedState, master: bool, cur: u8, brightness: u8) -> (r: (LedState, Option<u8>, [Rgb; 2]))
    requires
        st.wf(),
    ensures
        (r.0, r.1) == led_step_of(st, master, cur),
        r.0.wf(),
        r.2@ == seq![
            scale_rgb_of(status_color_of(master, r.0.latch), brightness),
            scale_rgb_of(status_color_of(master, r.0.latch), brightness),
        ],
{
    let mut s = st;
    let mut send: Option<u8> = None;
    if master {
        s.heartbeat = s.heartbeat + 1;
        if cur != s.last_sent || s.heartbeat >= HEARTBEAT_TICKS {
            send = Some(cur);
            s.last_sent = cur;
            s.heartbeat = 0;
        }
    }
    if cur != 0 {
        s.latch = cur;
        s.hold = LATCH_TICKS;
    } else if s.hold > 0 {
        s.hold = s.hold - 1;
    } else {
        s.latch = 0;
    }
    let cols = status_colors(master, s.latch);
    let out = [scale_rgb(cols[0], brightness), scale_rgb(cols[1], brightness)];
    assert(out@ =~= seq![
        scale_rgb_of(status_color_of(master, s.latch), brightness),
        scale_rgb_of(status_color_of(master, s.latch), brightness),
    ]);
    (s, send, out)
}

/// A color scaled by brightness.
pub open spec fn scale_rgb_of(c: Rgb, b: u8) -> Rgb {
    Rgb { r: scale_of(c.r, b), g: scale_of(c.g, b), b: scale_of(c.b, b) }
}

// ---------------------------------------------------------------------
// Overlay from the stored configuration
// ---------------------------------------------------------------------

/// Room for the kana bytes of the overlay.
pub const OVERLAY_KANA_ROOM: usize = 1024;
/// Room for the key presses of the overlay.
pub const OVERLAY_KEYS_ROOM: usize = 512;
/// Room for the kana bytes of the direct keys.
pub const DIRECT_KANA_ROOM: usize = 256;
/// Room for the key presses of the direct keys.
pub const DIRECT_KEYS_ROOM: usize = 256;

/// Placing a value in storage with room `room` (kana bytes, key presses)
/// of which `used` is taken: whether it fits, and what is taken after it.
/// A hold takes nothing and gives no action.
pub open spec fn place_of(v: Val, used: (nat, nat), room: (nat, nat)) -> (bool, (nat, nat)) {
    match v {
        Val::Kana(c) => if used.0 + encode_utf8(c).len() > room.0 {
            (false, used)
        } else {
            (true, (used.0 + encode_utf8(c).len(), used.1))
        },
        Val::Keys(k) => if used.1 + k.len() > room.1 {
            (false, used)
        } else {
            (true, (used.0, used.1 + k.len()))
        },
        Val::Hold(_) => (false, used),
    }
}

/// What the values take when placed one after the other.
pub open spec fn used_after(vals: Seq<Val>, room: (nat, nat)) -> (nat, nat)
    decreases vals.len(),
{
    if vals.len() == 0 {
        (0, 0)
    } else {
        place_of(vals.last(), used_after(vals.drop_last(), room), room).1
    }
}

/// Whether the value at `i` fits when the values are placed in order.
pub open spec fn fits_at(vals: Seq<Val>, i: int, room: (nat, nat)) -> bool {
    place_of(vals[i], used_after(vals.take(i), room), room).0
}

/// Key presses of (usage, modifiers) pairs.
pub open spec fn keypresses_of(k: Seq<(u8, u8)>) -> Seq<KeyPress> {
    k.map_values(|p: (u8, u8)| KeyPress { usage: p.0, modifiers: p.1 })
}

/// The action of a value that fits: the kana, or the key presses; nothing
/// for a value that does not fit, and for a hold.
pub open spec fn action_for(a: Action, v: Val, fits: bool) -> bool {
    if !fits {
        a == Action::Undefined
    } else {
        match v {
            Val::Kana(c) => a matches Action::Kana(s) && s@ == c,
            Val::Keys(k) => a matches Action::Keys(ks) && ks@ == keypresses_of(k),
            Val::Hold(_) => a == Action::Undefined,
        }
    }
}

/// `Vec::leak`: the contents, kept for the rest of the program.
#[verifier::external_body]
fn leak_vec<T: 'static>(v: Vec<T>) -> (r: &'static [T])
    ensures
        r@ == v@,
{
    v.leak()
}

/// `String::leak`: the text, kept for the rest of the program.
#[verifier::external_body]
fn leak_string(s: String) -> (r: &'static str)
    ensures
        r@ == s@,
{
    s.leak()
}

/// `Box::leak`: the value, kept for the rest of the program.
#[verifier::external_body]
fn leak_box<T: 'static>(b: Box<T>) -> (r: &'static T)
    ensures
        *r == *b,
{
    Box::leak(b)
}

/// The action of a value placed with room `room`; `used` is updated.
fn to_action(v: &OverrideVal, used: &mut (usize, usize), room: (usize, usize)) -> (a: Action)
    requires
        old(used).0 <= room.0,
        old(used).1 <= room.1,
        val_wf(v@),
    ensures
        ({
            let (fits, u) = place_of(v@, (old(used).0 as nat, old(used).1 as nat), (room.0 as nat, room.1 as nat));
            &&& action_for(a, v@, fits)
            &&& final(used).0 == u.0 && final(used).1 == u.1
        }),
        final(used).0 <= room.0,
        final(used).1 <= room.1,
{
    match v {
        OverrideVal::Kana(s) => {
            let n = s.as_str().as_bytes().len();
            if n > room.0 - used.0 {
                return Action::Undefined;
            }
            used.0 = used.0 + n;
            let t = leak_string(s.clone());
            Action::Kana(t)
        },
        OverrideVal::Keys(kv) => {
            let n = kv.len();
            if n > room.1 - used.1 {
                return Action::Undefined;
            }
            used.1 = used.1 + n;
            let mut ks: Vec<KeyPress> = Vec::new();
            let mut i: usize = 0;
            while i < n
                invariant
                    i <= n == kv@.len(),
                    ks@ == keypresses_of(kv@.take(i as int)),
                decreases n - i,
            {
                let (u, m) = kv[i];
                ks.push(KeyPress { usage: u, modifiers: m });
                i += 1;
                assert(ks@ =~= keypresses_of(kv@.take(i as int)));
            }
            assert(kv@.take(n as int) =~= kv@);
            Action::Keys(leak_vec(ks))
        },
        OverrideVal::Hold(_) => Action::Undefined,
    }
}

/// The values of the overlay's sections in placing order: layers, two-key
/// chords, three-key chords, editing modes.
pub open spec fn overlay_vals(c: ConfigView) -> Seq<Val> {
    c.layers.map_values(|e: (Seq<u8>, Val)| e.1) + c.combo2.map_values(|e: (Seq<u8>, Val)| e.1)
        + c.combo3.map_values(|e: (Seq<u8>, Val)| e.1) + c.modes.map_values(|e: (Seq<u8>, Val)| e.1)
}

/// The overlay entries of a section: one per entry, keyed by `key`, with the
/// action of its value placed at `base + i` among `vals`.
pub open spec fn entries_match<K>(
    t: Seq<(K, Action)>,
    s: Seq<(Seq<u8>, Val)>,
    key: spec_fn(Seq<u8>) -> K,
    vals: Seq<Val>,
    base: int,
    room: (nat, nat),
) -> bool {
    &&& t.len() == s.len()
    &&& forall|i: int|
        0 <= i < t.len() ==> #[trigger] t[i].0 == key(s[i].0) && action_for(
            t[i].1,
            s[i].1,
            fits_at(vals, base + i, room),
        )
}

/// The overlay of a configuration: every layer, chord and editing mode
/// difference, keyed as the layout tables are; its action when it fits in
/// the overlay's room (values placed in order), nothing otherwise.
pub open spec fn overlay_of(o: Overlay, c: ConfigView) -> bool {
    let vals = overlay_vals(c);
    let room = (OVERLAY_KANA_ROOM as nat, OVERLAY_KEYS_ROOM as nat);
    let l = c.layers.len() as int;
    let c2 = c.combo2.len() as int;
    let c3 = c.combo3.len() as int;
    &&& entries_match(o.layers@, c.layers, |k: Seq<u8>| layer_key_of(k[0], k[1]), vals, 0, room)
    &&& entries_match(o.combo2@, c.combo2, |k: Seq<u8>| combo2_key_of(k[0], k[1]), vals, l, room)
    &&& entries_match(o.combo3@, c.combo3, |k: Seq<u8>| combo3_key_of(k[0], k[1], k[2]), vals, l + c2, room)
    &&& entries_match(o.modes@, c.modes, |k: Seq<u8>| layer_key_of(k[0], k[1]), vals, l + c2 + c3, room)
}

/// Overlay entries of layer or editing mode differences.
fn pair_entries(
    list: &Vec<(u8, u8, OverrideVal)>,
    used: &mut (usize, usize),
    room: (usize, usize),
    Ghost(vals): Ghost<Seq<Val>>,
    Ghost(base): Ghost<int>,
) -> (r: Vec<(u16, Action)>)
    requires
        old(used).0 <= room.0,
        old(used).1 <= room.1,
        entries_wf(view_pairs(list@)),
        0 <= base,
        base + list@.len() <= vals.len(),
        forall|j: int| 0 <= j < list@.len() ==> vals[base + j] == #[trigger] view_pairs(list@)[j].1,
        (old(used).0 as nat, old(used).1 as nat) == used_after(vals.take(base), (room.0 as nat, room.1 as nat)),
    ensures
        entries_match(r@, view_pairs(list@), |k: Seq<u8>| layer_key_of(k[0], k[1]), vals, base, (room.0 as nat, room.1 as nat)),
        (final(used).0 as nat, final(used).1 as nat) == used_after(
            vals.take(base + list@.len()),
            (room.0 as nat, room.1 as nat),
        ),
        final(used).0 <= room.0,
        final(used).1 <= room.1,
{
    let ghost s = view_pairs(list@);
    let ghost rm = (room.0 as nat, room.1 as nat);
    let mut r: Vec<(u16, Action)> = Vec::new();
    let mut i: usize = 0;
    while i < list.len()
        invariant
            i <= list@.len(),
            s == view_pairs(list@),
            rm == (room.0 as nat, room.1 as nat),
            entries_wf(s),
            0 <= base,
            base + list@.len() <= vals.len(),
            forall|j: int| 0 <= j < list@.len() ==> vals[base + j] == #[trigger] s[j].1,
            used.0 <= room.0,
            used.1 <= room.1,
            (used.0 as nat, used.1 as nat) == used_after(vals.take(base + i), rm),
            r@.len() == i,
            forall|j: int|
                0 <= j < i ==> #[trigger] r@[j].0 == (|k: Seq<u8>| layer_key_of(k[0], k[1]))(s[j].0) && action_for(
                    r@[j].1,
                    s[j].1,
                    fits_at(vals, base + j, rm),
                ),
        decreases list@.len() - i,
    {
        let e = &list[i];
        assert(val_wf(s[i as int].1));
        assert(vals[base + i] == s[i as int].1);
        assert(vals.take(base + i + 1).drop_last() =~= vals.take(base + i));
        let k = layer_key(e.0, e.1);
        assert(k == (|k: Seq<u8>| layer_key_of(k[0], k[1]))(s[i as int].0));
        let a = to_action(&e.2, used, room);
        r.push((k, a));
        i += 1;
    }
    r
}

/// Overlay entries of two-key chord differences.
fn keyed2_entries(
    list: &Vec<([u8; 2], OverrideVal)>,
    used: &mut (usize, usize),
    room: (usize, usize),
    Ghost(vals): Ghost<Seq<Val>>,
    Ghost(base): Ghost<int>,
) -> (r: Vec<(u16, Action)>)
    requires
        old(used).0 <= room.0,
        old(used).1 <= room.1,
        entries_wf(view_keyed2(list@)),
        0 <= base,
        base + list@.len() <= vals.len(),
        forall|j: int| 0 <= j < list@.len() ==> vals[base + j] == #[trigger] view_keyed2(list@)[j].1,
        (old(used).0 as nat, old(used).1 as nat) == used_after(vals.take(base), (room.0 as nat, room.1 as nat)),
    ensures
        entries_match(r@, view_keyed2(list@), |k: Seq<u8>| combo2_key_of(k[0], k[1]), vals, base, (room.0 as nat, room.1 as nat)),
        (final(used).0 as nat, final(used).1 as nat) == used_after(
            vals.take(base + list@.len()),
            (room.0 as nat, room.1 as nat),
        ),
        final(used).0 <= room.0,
        final(used).1 <= room.1,
{
    let ghost s = view_keyed2(list@);
    let ghost rm = (room.0 as nat, room.1 as nat);
    let mut r: Vec<(u16, Action)> = Vec::new();
    let mut i: usize = 0;
    while i < list.len()
        invariant
            i <= list@.len(),
            s == view_keyed2(list@),
            rm == (room.0 as nat, room.1 as nat),
            entries_wf(s),
            0 <= base,
            base + list@.len() <= vals.len(),
            forall|j: int| 0 <= j < list@.len() ==> vals[base + j] == #[trigger] s[j].1,
            used.0 <= room.0,
            used.1 <= room.1,
            (used.0 as nat, used.1 as nat) == used_after(vals.take(base + i), rm),
            r@.len() == i,
            forall|j: int|
                0 <= j < i ==> #[trigger] r@[j].0 == (|k: Seq<u8>| combo2_key_of(k[0], k[1]))(s[j].0) && action_for(
                    r@[j].1,
                    s[j].1,
                    fits_at(vals, base + j, rm),
                ),
        decreases list@.len() - i,
    {
        let e = &list[i];
        assert(val_wf(s[i as int].1));
        assert(vals[base + i] == s[i as int].1);
        assert(vals.take(base + i + 1).drop_last() =~= vals.take(base + i));
        let k = combo2_key(e.0[0], e.0[1]);
        assert(k == (|k: Seq<u8>| combo2_key_of(k[0], k[1]))(s[i as int].0));
        let a = to_action(&e.1, used, room);
        r.push((k, a));
        i += 1;
    }
    r
}

/// Overlay entries of three-key chord differences.
fn keyed3_entries(
    list: &Vec<([u8; 3], OverrideVal)>,
    used: &mut (usize, usize),
    room: (usize, usize),
    Ghost(vals): Ghost<Seq<Val>>,
    Ghost(base): Ghost<int>,
) -> (r: Vec<(u32, Action)>)
    requires
        old(used).0 <= room.0,
        old(used).1 <= room.1,
        entries_wf(view_keyed3(list@)),
        0 <= base,
        base + list@.len() <= vals.len(),
        forall|j: int| 0 <= j < list@.len() ==> vals[base + j] == #[trigger] view_keyed3(list@)[j].1,
        (old(used).0 as nat, old(used).1 as nat) == used_after(vals.take(base), (room.0 as nat, room.1 as nat)),
    ensures
        entries_match(r@, view_keyed3(list@), |k: Seq<u8>| combo3_key_of(k[0], k[1], k[2]), vals, base, (room.0 as nat, room.1 as nat)),
        (final(used).0 as nat, final(used).1 as nat) == used_after(
            vals.take(base + list@.len()),
            (room.0 as nat, room.1 as nat),
        ),
        final(used).0 <= room.0,
        final(used).1 <= room.1,
{
    let ghost s = view_keyed3(list@);
    let ghost rm = (room.0 as nat, room.1 as nat);
    let mut r: Vec<(u32, Action)> = Vec::new();
    let mut i: usize = 0;
    while i < list.len()
        invariant
            i <= list@.len(),
            s == view_keyed3(list@),
            rm == (room.0 as nat, room.1 as nat),
            entries_wf(s),
            0 <= base,
            base + list@.len() <= vals.len(),
            forall|j: int| 0 <= j < list@.len() ==> vals[base + j] == #[trigger] s[j].1,
            used.0 <= room.0,
            used.1 <= room.1,
            (used.0 as nat, used.1 as nat) == used_after(vals.take(base + i), rm),
            r@.len() == i,
            forall|j: int|
                0 <= j < i ==> #[trigger] r@[j].0 == (|k: Seq<u8>| combo3_key_of(k[0], k[1], k[2]))(s[j].0) && action_for(
                    r@[j].1,
                    s[j].1,
                    fits_at(vals, base + j, rm),
                ),
        decreases list@.len() - i,
    {
        let e = &list[i];
        assert(val_wf(s[i as int].1));
        assert(vals[base + i] == s[i as int].1);
        assert(vals.take(base + i + 1).drop_last() =~= vals.take(base + i));
        let k = combo3_key(e.0[0], e.0[1], e.0[2]);
        assert(k == (|k: Seq<u8>| combo3_key_of(k[0], k[1], k[2]))(s[i as int].0));
        let a = to_action(&e.1, used, room);
        r.push((k, a));
        i += 1;
    }
    r
}

/// Direct key entries of direct key assignments.
fn triple_entries(
    list: &Vec<(u8, u8, u8, OverrideVal)>,
    used: &mut (usize, usize),
    room: (usize, usize),
    Ghost(vals): Ghost<Seq<Val>>,
    Ghost(base): Ghost<int>,
) -> (r: Vec<(u16, Action)>)
    requires
        old(used).0 <= room.0,
        old(used).1 <= room.1,
        entries_wf(view_triples(list@)),
        0 <= base,
        base + list@.len() <= vals.len(),
        forall|j: int| 0 <= j < list@.len() ==> vals[base + j] == #[trigger] view_triples(list@)[j].1,
        (old(used).0 as nat, old(used).1 as nat) == used_after(vals.take(base), (room.0 as nat, room.1 as nat)),
    ensures
        entries_match(r@, view_triples(list@), |k: Seq<u8>| pack_pos_of(if k[0] == 0 { Hand::Left } else { Hand::Right }, k[1], k[2]), vals, base, (room.0 as nat, room.1 as nat)),
        (final(used).0 as nat, final(used).1 as nat) == used_after(
            vals.take(base + list@.len()),
            (room.0 as nat, room.1 as nat),
        ),
        final(used).0 <= room.0,
        final(used).1 <= room.1,
{
    let ghost s = view_triples(list@);
    let ghost rm = (room.0 as nat, room.1 as nat);
    let mut r: Vec<(u16, Action)> = Vec::new();
    let mut i: usize = 0;
    while i < list.len()
        invariant
            i <= list@.len(),
            s == view_triples(list@),
            rm == (room.0 as nat, room.1 as nat),
            entries_wf(s),
            0 <= base,
            base + list@.len() <= vals.len(),
            forall|j: int| 0 <= j < list@.len() ==> vals[base + j] == #[trigger] s[j].1,
            used.0 <= room.0,
            used.1 <= room.1,
            (used.0 as nat, used.1 as nat) == used_after(vals.take(base + i), rm),
            r@.len() == i,
            forall|j: int|
                0 <= j < i ==> #[trigger] r@[j].0 == (|k: Seq<u8>| pack_pos_of(if k[0] == 0 { Hand::Left } else { Hand::Right }, k[1], k[2]))(s[j].0) && action_for(
                    r@[j].1,
                    s[j].1,
                    fits_at(vals, base + j, rm),
                ),
        decreases list@.len() - i,
    {
        let e = &list[i];
        assert(val_wf(s[i as int].1));
        assert(vals[base + i] == s[i as int].1);
        assert(vals.take(base + i + 1).drop_last() =~= vals.take(base + i));
        let k = pack_pos(if e.0 == 0 { Hand::Left } else { Hand::Right }, e.1, e.2);
        assert(k == (|k: Seq<u8>| pack_pos_of(if k[0] == 0 { Hand::Left } else { Hand::Right }, k[1], k[2]))(s[i as int].0));
        let a = to_action(&e.3, used, room);
        r.push((k, a));
        i += 1;
    }
    r
}

/// Builds the overlay of the stored configuration (done once at boot).
pub fn build_overlay(cfg: &Config) -> (r: &'static Overlay)
    requires
        config_wf(cfg@),
    ensures
        overlay_of(*r, cfg@),
{
    let ghost c = cfg@;
    let ghost vals = overlay_vals(c);
    let room = (OVERLAY_KANA_ROOM, OVERLAY_KEYS_ROOM);
    let mut used: (usize, usize) = (0, 0);
    let ghost l = c.layers.len() as int;
    let ghost n2 = c.combo2.len() as int;
    let ghost n3 = c.combo3.len() as int;
    assert(vals.take(0) =~= Seq::<Val>::empty());
    let layers = pair_entries(&cfg.layers, &mut used, room, Ghost(vals), Ghost(0));
    let combo2 = keyed2_entries(&cfg.combo2, &mut used, room, Ghost(vals), Ghost(l));
    let combo3 = keyed3_entries(&cfg.combo3, &mut used, room, Ghost(vals), Ghost(l + n2));
    let modes = pair_entries(&cfg.modes, &mut used, room, Ghost(vals), Ghost(l + n2 + n3));
    let ov = Overlay {
        layers: leak_vec(layers),
        combo2: leak_vec(combo2),
        combo3: leak_vec(combo3),
        modes: leak_vec(modes),
    };
    leak_box(Box::new(ov))
}

/// The direct keys of a configuration: one per direct key assignment, keyed
/// by its packed position (hand 0 is the left half), with the action of its
/// value when it fits in the direct keys' room (values placed in order).
pub open spec fn direct_of(t: Seq<(u16, Action)>, c: ConfigView) -> bool {
    entries_match(
        t,
        c.extra,
        |k: Seq<u8>| pack_pos_of(if k[0] == 0 { Hand::Left } else { Hand::Right }, k[1], k[2]),
        c.extra.map_values(|e: (Seq<u8>, Val)| e.1),
        0,
        (DIRECT_KANA_ROOM as nat, DIRECT_KEYS_ROOM as nat),
    )
}

/// Builds the direct keys of the stored configuration (done once at boot).
pub fn build_direct(cfg: &Config) -> (r: &'static [(u16, Action)])
    requires
        config_wf(cfg@),
    ensures
        direct_of(r@, cfg@),
{
    let ghost vals = cfg@.extra.map_values(|e: (Seq<u8>, Val)| e.1);
    let mut used: (usize, usize) = (0, 0);
    assert(vals.take(0) =~= Seq::<Val>::empty());
    let t = triple_entries(&cfg.extra, &mut used, (DIRECT_KANA_ROOM, DIRECT_KEYS_ROOM), Ghost(vals), Ghost(0));
    leak_vec(t)
}

// ---------------------------------------------------------------------
// Key events
// ---------------------------------------------------------------------

/// Bit marking the last-key record as not yet reported.
pub const LAST_KEY_FRESH: u16 = 0x8000;

/// What a key event changed besides the actions: the new last-key record
/// (on a press), and the shift state to display (when the engine took the
/// event).
pub struct KeyOutcome {
    pub last_key: Option<u16>,
    pub shifts: Option<u8>,
}

/// Handles a key event of either half on the master (the secondary only
/// forwards its events): a key with a scan code goes to the engine; a
/// press of a key without one types its direct key action, if it has one.
/// Every press is recorded as the last key.
pub fn route_key(
    engine: &mut Engine,
    direct: &[(u16, Action)],
    master: bool,
    hand: Hand,
    row: u8,
    col: u8,
    pressed: bool,
    now: u32,
    out: &mut Vec<Action>,
) -> (r: KeyOutcome)
    ensures
        !master ==> final(engine)@ == old(engine)@ && final(out)@ == old(out)@ && r.last_key is None
            && r.shifts is None,
        master ==> r.last_key == (if pressed {
            Some((pack_pos_of(hand, row, col) | LAST_KEY_FRESH) as u16)
        } else {
            None
        }),
        master ==> match assoc(matrix_of(hand), matrix_pos(row, col)) {
            Some(sc) => {
                &&& (final(engine)@, final(out)@) == (if pressed {
                    press_of(old(engine)@, old(out)@, sc, now)
                } else {
                    release_of(old(engine)@, old(out)@, sc, now)
                })
                &&& r.shifts == Some(display_of(final(engine)@))
            },
            None => {
                &&& final(engine)@ == old(engine)@
                &&& r.shifts is None
                &&& final(out)@ == (if pressed && assoc(direct@, pack_pos_of(hand, row, col)) is Some {
                    old(out)@.push(assoc(direct@, pack_pos_of(hand, row, col))->0)
                } else {
                    old(out)@
                })
            },
        },
{
    if !master {
        return KeyOutcome { last_key: None, shifts: None };
    }
    let last_key = if pressed {
        Some(pack_pos(hand, row, col) | LAST_KEY_FRESH)
    } else {
        None
    };
    match matrix_to_sc(hand, row, col) {
        Some(sc) => {
            if pressed {
                engine.press(sc, now, out);
            } else {
                engine.release(sc, now, out);
            }
            KeyOutcome { last_key, shifts: Some(engine.display_shifts()) }
        },
        None => {
            if pressed {
                if let Some(a) = lookup_u16(direct, pack_pos(hand, row, col)) {
                    out.push(a);
                }
            }
            KeyOutcome { last_key, shifts: None }
        },
    }
}

/// The timer tick on the master (the secondary does not convert).
pub fn tick_engine(engine: &mut Engine, master: bool, now: u32, out: &mut Vec<Action>)
    ensures
        master ==> (final(engine)@, final(out)@) == tick_of(old(engine)@, old(out)@, now),
        !master ==> final(engine)@ == old(engine)@ && final(out)@ == old(out)@,
{
    if master {
        engine.tick(now, out);
    }
}

// ---------------------------------------------------------------------
// HID strokes
// ---------------------------------------------------------------------

/// Romaji letters typed for one kana action (the rest is cut off).
pub const ROMAJI_CAP: usize = 16;

/// The keys typing an action: the romaji of kana, or the key presses.
pub open spec fn action_keys_of(a: Action) -> Seq<KeyPress> {
    match a {
        Action::Kana(s) => romaji_keys(capped(romaji_of(s@), ROMAJI_CAP as nat)),
        Action::Keys(k) => k@,
        Action::Undefined => Seq::empty(),
    }
}

/// Appends the keys typing `a`.
pub fn action_keys(a: Action, out: &mut Vec<KeyPress>)
    ensures
        final(out)@ == old(out)@ + action_keys_of(a),
{
    match a {
        Action::Kana(kana) => {
            let romaji = kana_to_romaji::<ROMAJI_CAP>(kana);
            romaji_to_hid(romaji.as_str(), out);
        },
        Action::Keys(keys) => {
            let mut i: usize = 0;
            while i < keys.len()
                invariant
                    i <= keys@.len(),
                    out@ == old(out)@ + keys@.take(i as int),
                decreases keys@.len() - i,
            {
                out.push(keys[i]);
                i += 1;
                assert(out@ =~= old(out)@ + keys@.take(i as int));
            }
            assert(keys@.take(keys@.len() as int) =~= keys@);
        },
        Action::Undefined => {
            assert(out@ =~= old(out)@ + Seq::<KeyPress>::empty());
        },
    }
}

/// The reports of key strokes: for each key, its press report then the
/// release report.
pub open spec fn strokes_of(k: Seq<KeyPress>) -> Seq<Seq<u8>>
    decreases k.len(),
{
    if k.len() == 0 {
        Seq::empty()
    } else {
        strokes_of(k.drop_last()) + seq![report_of(k.last()), Seq::new(8, |i: int| 0u8)]
    }
}

/// Reports as byte sequences.
pub open spec fn reports_view(v: Seq<[u8; 8]>) -> Seq<Seq<u8>> {
    v.map_values(|r: [u8; 8]| r@)
}

/// The reports typing an action, in order.
pub fn action_reports(a: Action) -> (r: Vec<[u8; 8]>)
    ensures
        reports_view(r@) == strokes_of(action_keys_of(a)),
{
    let mut keys: Vec<KeyPress> = Vec::new();
    action_keys(a, &mut keys);
    assert(keys@ =~= action_keys_of(a));
    let mut r: Vec<[u8; 8]> = Vec::new();
    let mut i: usize = 0;
    while i < keys.len()
        invariant
            i <= keys@.len(),
            reports_view(r@) == strokes_of(keys@.take(i as int)),
        decreases keys@.len() - i,
    {
        let press = report_for(keys[i]);
        let release = release_report();
        let ghost before = r@;
        r.push(press);
        r.push(release);
        assert(keys@.take(i + 1).drop_last() =~= keys@.take(i as int));
        assert(reports_view(r@) =~= reports_view(before) + seq![press@, release@]);
        i += 1;
    }
    assert(keys@.take(keys@.len() as int) =~= keys@);
    r
}

// ---------------------------------------------------------------------
// Raw matrix test
// ---------------------------------------------------------------------

/// The decimal digits of a row or column number as typed: the tens digit
/// (for numbers of 10 and more, as '0' + n / 10) then the ones digit.
pub open spec fn digits_of(n: u8) -> Seq<char> {
    if n >= 10 {
        seq![((48 + n / 10) as u32) as char, ((48 + n % 10) as u32) as char]
    } else {
        seq![((48 + n) as u32) as char]
    }
}

/// The text typed for a pressed position in the raw matrix test: "r",
/// the row, "c", the column, a space.
pub open spec fn raw_text_of(row: u8, col: u8) -> Seq<char> {
    seq!['r'] + digits_of(row) + seq!['c'] + digits_of(col) + seq![' ']
}

fn push_digits(text: &mut Vec<char>, n: u8)
    ensures
        final(text)@ == old(text)@ + digits_of(n),
{
    if n >= 10 {
        text.push((48u8 + n / 10) as char);
        text.push((48u8 + n % 10) as char);
    } else {
        text.push((48u8 + n) as char);
    }
    assert(text@ =~= old(text)@ + digits_of(n));
}

/// Appends the keys typing the position of a pressed key (raw matrix test).
pub fn raw_position_keys(row: u8, col: u8, out: &mut Vec<KeyPress>)
    ensures
        final(out)@ == old(out)@ + romaji_keys(raw_text_of(row, col)),
{
    let mut text: Vec<char> = Vec::new();
    text.push('r');
    push_digits(&mut text, row);
    text.push('c');
    push_digits(&mut text, col);
    text.push(' ');
    assert(text@ =~= raw_text_of(row, col));
    let mut i: usize = 0;
    while i < text.len()
        invariant
            i <= text@.len(),
            out@ == old(out)@ + romaji_keys(text@.take(i as int)),
        decreases text@.len() - i,
    {
        let c = text[i];
        assert(text@.take(i + 1).drop_last() =~= text@.take(i as int));
        if let Some(k) = ascii_to_hid(c) {
            out.push(k);
        }
        i += 1;
        assert(out@ =~= old(out)@ + romaji_keys(text@.take(i as int)));
    }
    assert(text@.take(text@.len() as int) =~= text@);
}

} // verus!
