//! The Naginata-style layout (v15): shift keys, layers, chords, editing
//! modes and the physical matrix of each half.
//!
//! Layer keys pack a shift mask and a scan code as `mask * 256 + sc`; chord
//! keys pack the sorted scan codes, lowest first, one byte each. Each value
//! is a kana string, or a key sequence named by a nonzero id (`key_sequence`).
use vstd::prelude::*;

use crate::hid::{KeyPress, HID_LANG1, HID_LANG2};
use crate::Action;

verus! {

/// Default chord window (ms): keys pressed within it may form a chord.
pub const WINDOW_MS: u32 = 40;
/// Default tap time (ms).
pub const TAP_MS: u32 = 200;

/// Shift mask bits.
pub const SH_CENTER: u8 = 0x01;  // space
pub const SH_DAKU_R: u8 = 0x02;  // voiced mark, right hand (j)
pub const SH_DAKU_L: u8 = 0x04;  // voiced mark, left hand (f)
pub const SH_HANDAKU_R: u8 = 0x08;  // semi-voiced mark, right hand (m)
pub const SH_HANDAKU_L: u8 = 0x10;  // semi-voiced mark, left hand (v)
pub const SH_SMALL: u8 = 0x20;  // small kana (q)

/// Keys that can act as a shift, with their mask bit.
pub const SHIFT_KEYS: [(u8, u8); 6] = [
    (0x39, SH_CENTER),
    (0x24, SH_DAKU_R),
    (0x21, SH_DAKU_L),
    (0x32, SH_HANDAKU_R),
    (0x2f, SH_HANDAKU_L),
    (0x10, SH_SMALL),
];

/// Key sequence ids (0 means the entry is kana).
pub const KS_LEFT: u8 = 1;
pub const KS_RIGHT: u8 = 2;
pub const KS_BS: u8 = 3;
pub const KS_SPACE: u8 = 4;
pub const KS_TOUTEN: u8 = 5;
pub const KS_KUTEN: u8 = 6;
pub const KS_ENTER: u8 = 7;
pub const KS_LANG1: u8 = 8;
pub const KS_LANG2: u8 = 9;
pub const KS_UP: u8 = 10;
pub const KS_DOWN: u8 = 11;
pub const KS_DEL: u8 = 12;
pub const KS_HOME: u8 = 13;
pub const KS_END: u8 = 14;
pub const KS_COPY: u8 = 15;
pub const KS_PASTE: u8 = 16;
pub const KS_CUT: u8 = 17;
pub const KS_UNDO: u8 = 18;

/// The HID keys of a key sequence id.
pub open spec fn key_sequence_of(id: u8) -> &'static [KeyPress] {
    match id {
        KS_LEFT => &[KeyPress { usage: 0x50, modifiers: 0 }],
        KS_RIGHT => &[KeyPress { usage: 0x4f, modifiers: 0 }],
        KS_BS => &[KeyPress { usage: 0x2a, modifiers: 0 }],
        KS_SPACE => &[KeyPress { usage: 0x2c, modifiers: 0 }],
        KS_TOUTEN => &[KeyPress { usage: 0x36, modifiers: 0 }, KeyPress { usage: 0x28, modifiers: 0 }],
        KS_KUTEN => &[KeyPress { usage: 0x37, modifiers: 0 }, KeyPress { usage: 0x28, modifiers: 0 }],
        KS_ENTER => &[KeyPress { usage: 0x28, modifiers: 0 }],
        KS_LANG1 => &[KeyPress { usage: 0x90, modifiers: 0 }],
        KS_LANG2 => &[KeyPress { usage: 0x91, modifiers: 0 }],
        KS_UP => &[KeyPress { usage: 0x52, modifiers: 0 }],
        KS_DOWN => &[KeyPress { usage: 0x51, modifiers: 0 }],
        KS_DEL => &[KeyPress { usage: 0x4c, modifiers: 0 }],
        KS_HOME => &[KeyPress { usage: 0x4a, modifiers: 0 }],
        KS_END => &[KeyPress { usage: 0x4d, modifiers: 0 }],
        KS_COPY => &[KeyPress { usage: 0x06, modifiers: 0x01 }],
        KS_PASTE => &[KeyPress { usage: 0x19, modifiers: 0x01 }],
        KS_CUT => &[KeyPress { usage: 0x1b, modifiers: 0x01 }],
        KS_UNDO => &[KeyPress { usage: 0x1d, modifiers: 0x01 }],
        _ => &[],
    }
}

pub fn key_sequence(id: u8) -> (r: &'static [KeyPress])
    ensures
        r == key_sequence_of(id),
{
    match id {
        KS_LEFT => &[KeyPress { usage: 0x50, modifiers: 0 }],
        KS_RIGHT => &[KeyPress { usage: 0x4f, modifiers: 0 }],
        KS_BS => &[KeyPress { usage: 0x2a, modifiers: 0 }],
        KS_SPACE => &[KeyPress { usage: 0x2c, modifiers: 0 }],
        KS_TOUTEN => &[KeyPress { usage: 0x36, modifiers: 0 }, KeyPress { usage: 0x28, modifiers: 0 }],
        KS_KUTEN => &[KeyPress { usage: 0x37, modifiers: 0 }, KeyPress { usage: 0x28, modifiers: 0 }],
        KS_ENTER => &[KeyPress { usage: 0x28, modifiers: 0 }],
        KS_LANG1 => &[KeyPress { usage: 0x90, modifiers: 0 }],
        KS_LANG2 => &[KeyPress { usage: 0x91, modifiers: 0 }],
        KS_UP => &[KeyPress { usage: 0x52, modifiers: 0 }],
        KS_DOWN => &[KeyPress { usage: 0x51, modifiers: 0 }],
        KS_DEL => &[KeyPress { usage: 0x4c, modifiers: 0 }],
        KS_HOME => &[KeyPress { usage: 0x4a, modifiers: 0 }],
        KS_END => &[KeyPress { usage: 0x4d, modifiers: 0 }],
        KS_COPY => &[KeyPress { usage: 0x06, modifiers: 0x01 }],
        KS_PASTE => &[KeyPress { usage: 0x19, modifiers: 0x01 }],
        KS_CUT => &[KeyPress { usage: 0x1b, modifiers: 0x01 }],
        KS_UNDO => &[KeyPress { usage: 0x1d, modifiers: 0x01 }],
        _ => &[],
    }
}

/// The IME keys: the IME-on sequence is the single key LANG1 and the
/// IME-off sequence the single key LANG2, and no other sequence presses
/// either key, so that the on and off chords (HJ and FG) cannot be mixed up.
pub proof fn lemma_ime_keys()
    ensures
        key_sequence_of(KS_LANG1)@ == seq![KeyPress { usage: HID_LANG1, modifiers: 0 }],
        key_sequence_of(KS_LANG2)@ == seq![KeyPress { usage: HID_LANG2, modifiers: 0 }],
        forall|id: u8|
            #[trigger] key_sequence_of(id)@.contains(KeyPress { usage: HID_LANG1, modifiers: 0 }) <==> id
                == KS_LANG1,
        forall|id: u8|
            #[trigger] key_sequence_of(id)@.contains(KeyPress { usage: HID_LANG2, modifiers: 0 }) <==> id
                == KS_LANG2,
{
    let on = KeyPress { usage: HID_LANG1, modifiers: 0 };
    let off = KeyPress { usage: HID_LANG2, modifiers: 0 };
    assert(key_sequence_of(KS_LANG1)@ =~= seq![on]);
    assert(key_sequence_of(KS_LANG2)@ =~= seq![off]);
    assert(key_sequence_of(KS_LANG1)@[0] == on);
    assert(key_sequence_of(KS_LANG2)@[0] == off);
    assert forall|id: u8| #[trigger] key_sequence_of(id)@.contains(on) <==> id == KS_LANG1 by {
        let q = key_sequence_of(id)@;
        if id != KS_LANG1 {
            assert forall|j: int| 0 <= j < q.len() implies q[j] != on by {}
        }
    }
    assert forall|id: u8| #[trigger] key_sequence_of(id)@.contains(off) <==> id == KS_LANG2 by {
        let q = key_sequence_of(id)@;
        if id != KS_LANG2 {
            assert forall|j: int| 0 <= j < q.len() implies q[j] != off by {}
        }
    }
}

/// The action of a table entry: kana when the id is 0, else the key sequence.
pub open spec fn entry_action_of(e: (&'static str, u8)) -> Action {
    if e.1 == 0 {
        Action::Kana(e.0)
    } else {
        Action::Keys(key_sequence_of(e.1))
    }
}

pub fn entry_action(e: (&'static str, u8)) -> (r: Action)
    ensures
        r == entry_action_of(e),
{
    if e.1 == 0 {
        Action::Kana(e.0)
    } else {
        Action::Keys(key_sequence(e.1))
    }
}

/// Layers: key `mask * 256 + sc`.
pub const LAYERS: [(u16, (&'static str, u8)); 93] = [
    // single strokes (mask 0)
    (0x0010, ("ヴ", 0)), (0x0011, ("き", 0)), (0x0012, ("て", 0)), (0x0013, ("し", 0)),
    (0x0014, ("", KS_LEFT)), (0x0015, ("", KS_RIGHT)), (0x0016, ("", KS_BS)),
    (0x0017, ("る", 0)), (0x0018, ("す", 0)), (0x0019, ("へ", 0)),
    (0x001e, ("ろ", 0)), (0x001f, ("け", 0)), (0x0020, ("と", 0)), (0x0021, ("か", 0)),
    (0x0022, ("っ", 0)), (0x0023, ("く", 0)), (0x0024, ("あ", 0)), (0x0025, ("い", 0)),
    (0x0026, ("う", 0)), (0x0027, ("ー", 0)),
    (0x002c, ("ほ", 0)), (0x002d, ("ひ", 0)), (0x002e, ("は", 0)), (0x002f, ("こ", 0)),
    (0x0030, ("そ", 0)), (0x0031, ("た", 0)), (0x0032, ("な", 0)), (0x0033, ("ん", 0)),
    (0x0034, ("ら", 0)), (0x0035, ("れ", 0)), (0x0039, ("", KS_SPACE)),
    // center shift (space)
    (0x0111, ("ぬ", 0)), (0x0112, ("り", 0)), (0x0113, ("ね", 0)),
    (0x0116, ("さ", 0)), (0x0117, ("よ", 0)), (0x0118, ("え", 0)), (0x0119, ("ゆ", 0)),
    (0x011e, ("せ", 0)), (0x011f, ("め", 0)), (0x0120, ("に", 0)), (0x0121, ("ま", 0)),
    (0x0122, ("ち", 0)), (0x0123, ("や", 0)), (0x0124, ("の", 0)), (0x0125, ("も", 0)),
    (0x0126, ("わ", 0)), (0x0127, ("つ", 0)),
    (0x012e, ("を", 0)), (0x012f, ("", KS_TOUTEN)), (0x0130, ("み", 0)),
    (0x0131, ("お", 0)), (0x0132, ("", KS_KUTEN)), (0x0133, ("む", 0)), (0x0134, ("ふ", 0)),
    // voiced mark with the right-hand key (j) on left-hand keys
    (0x0211, ("ぎ", 0)), (0x0212, ("で", 0)), (0x0213, ("じ", 0)),
    (0x021e, ("ぜ", 0)), (0x021f, ("げ", 0)), (0x0220, ("ど", 0)), (0x0221, ("が", 0)),
    (0x0222, ("ぢ", 0)), (0x0223, ("", KS_LANG1)),
    (0x022c, ("ぼ", 0)), (0x022d, ("び", 0)), (0x022e, ("ば", 0)), (0x022f, ("ご", 0)),
    (0x0230, ("ぞ", 0)),
    // voiced mark with the left-hand key (f) on right-hand keys
    (0x0416, ("ざ", 0)), (0x0418, ("ず", 0)), (0x0419, ("べ", 0)),
    (0x0422, ("", KS_LANG2)), (0x0423, ("ぐ", 0)), (0x0426, ("ゔ", 0)), (0x0427, ("づ", 0)),
    (0x0431, ("だ", 0)), (0x0434, ("ぶ", 0)),
    // semi-voiced mark with the right-hand key (m) on left-hand keys
    (0x082c, ("ぽ", 0)), (0x082d, ("ぴ", 0)), (0x082e, ("ぱ", 0)), (0x082f, ("", KS_ENTER)),
    // semi-voiced mark with the left-hand key (v) on right-hand keys
    (0x1019, ("ぺ", 0)), (0x1032, ("", KS_ENTER)), (0x1034, ("ぷ", 0)),
    // small kana (q)
    (0x2017, ("ょ", 0)), (0x2018, ("ぇ", 0)), (0x2019, ("ゅ", 0)), (0x2023, ("ゃ", 0)),
    (0x2024, ("ぁ", 0)), (0x2025, ("ぃ", 0)), (0x2026, ("ぅ", 0)), (0x2031, ("ぉ", 0)),
];

/// Two-key chords of unshifted keys (contracted sounds), key = sorted pair.
pub const COMBO2: [(u16, (&'static str, u8)); 9] = [
    (0x2311, ("きゃ", 0)), (0x1911, ("きゅ", 0)), (0x1711, ("きょ", 0)),
    (0x2313, ("しゃ", 0)), (0x1913, ("しゅ", 0)), (0x1713, ("しょ", 0)),
    (0x2d23, ("ひゃ", 0)), (0x2d19, ("ひゅ", 0)), (0x2d17, ("ひょ", 0)),
];

/// Three-key chords (voiced contracted sounds, foreign sounds), key = sorted triple.
pub const COMBO3: [(u32, (&'static str, u8)); 28] = [
    (0x252412, ("でぃ", 0)), (0x322512, ("てぃ", 0)), (0x322620, ("とぅ", 0)),
    (0x2f2724, ("ふぁ", 0)),
    (0x242311, ("ぎゃ", 0)), (0x241911, ("ぎゅ", 0)), (0x241711, ("ぎょ", 0)),
    (0x242313, ("じゃ", 0)), (0x241913, ("じゅ", 0)), (0x241713, ("じょ", 0)),
    (0x2d2423, ("びゃ", 0)), (0x2d2419, ("びゅ", 0)), (0x2d2417, ("びょ", 0)),
    (0x322d23, ("ぴゃ", 0)), (0x322d19, ("ぴゅ", 0)), (0x322d17, ("ぴょ", 0)),
    (0x392320, ("にゃ", 0)), (0x392019, ("にゅ", 0)), (0x392017, ("にょ", 0)),
    (0x392322, ("ちゃ", 0)), (0x392219, ("ちゅ", 0)), (0x392217, ("ちょ", 0)),
    (0x393023, ("みゃ", 0)), (0x393019, ("みゅ", 0)), (0x393017, ("みょ", 0)),
    (0x392312, ("りゃ", 0)), (0x391912, ("りゅ", 0)), (0x391712, ("りょ", 0)),
];

/// Two-key triggers of the editing modes (held while the mode lasts).
pub const MODE_TRIGGERS: [(u16, u8); 2] = [
    (0x2120, 1),  // D + F
    (0x2f2e, 2),  // C + V
];

/// Editing mode actions: key `mode * 256 + sc`.
pub const MODE_LAYERS: [(u16, (&'static str, u8)); 14] = [
    (0x0115, ("", KS_HOME)), (0x0116, ("", KS_BS)), (0x0118, ("", KS_DEL)), (0x0119, ("", KS_END)),
    (0x0123, ("", KS_LEFT)), (0x0124, ("", KS_UP)), (0x0125, ("", KS_DOWN)), (0x0126, ("", KS_RIGHT)),
    (0x0216, ("", KS_UNDO)), (0x0223, ("", KS_COPY)), (0x0224, ("", KS_PASTE)), (0x0225, ("", KS_CUT)),
    (0x0232, ("", KS_LEFT)), (0x0233, ("", KS_RIGHT)),
];

/// Left half: position `row * 16 + col` to scan code.
pub const MATRIX_LEFT: [(u8, u8); 16] = [
    (0x11, 0x10), (0x12, 0x11), (0x13, 0x12), (0x14, 0x13), (0x15, 0x14),
    (0x21, 0x1e), (0x22, 0x1f), (0x23, 0x20), (0x24, 0x21), (0x25, 0x22),
    (0x31, 0x2c), (0x32, 0x2d), (0x33, 0x2e), (0x34, 0x2f), (0x35, 0x30),
    (0x45, 0x39),
];

/// Right half (mirrored: column 1 is the outer key): position to scan code.
pub const MATRIX_RIGHT: [(u8, u8); 16] = [
    (0x11, 0x19), (0x12, 0x18), (0x13, 0x17), (0x14, 0x16), (0x15, 0x15),
    (0x21, 0x27), (0x22, 0x26), (0x23, 0x25), (0x24, 0x24), (0x25, 0x23),
    (0x31, 0x35), (0x32, 0x34), (0x33, 0x33), (0x34, 0x32), (0x35, 0x31),
    (0x45, 0x39),
];

} // verus!
