//! PC configuration channel: a vendor-defined HID interface (usage page
//! 0xFF00) with 64-byte reports both ways, next to the keyboard.
//!
//! Protocol (both directions 64 bytes):
//!   OUT (host to device): [0]=cmd [1]=seq [2..]=args
//!   IN  (device to host): [0]=cmd [1]=seq [2]=status [3..]=payload
//!
//! Defaults are read from the layout tables; differences go to a staged
//! configuration. Writes only change the staged configuration; COMMIT stores
//! it in flash, and it takes effect after a reboot.
use vstd::prelude::*;
use vstd::string::*;

use crate::config::{
    config_wf, dec_val, default_config, enc_val, entries_wf, get16, le16, remove_in, section_of,
    set_in, val_wf, view_keyed2, view_keyed3, view_pairs, view_triples, width_of, Config,
    ConfigView, OverrideVal, Params, Val, MAX_KANA_LEN, MAX_KEYS, TAG_KANA, TAG_KEYS,
};
use crate::config::laws::{config_canon, lemma_dec_val_wf, lemma_default_canon, lemma_remove_canon, lemma_set_canon};
use crate::hid::KeyPress;
use crate::layout::{entry_action, entry_action_of, COMBO2, COMBO3, LAYERS, MATRIX_LEFT, MATRIX_RIGHT, MODE_LAYERS};
use crate::Action;

verus! {

/// Report length (IN and OUT).
pub const REPORT_LEN: usize = 64;

/// Vendor-defined HID report descriptor (usage page 0xFF00, usage 0x01,
/// 64 bytes in and out).
pub const VENDOR_REPORT_DESCRIPTOR: [u8; 25] = [
    0x06, 0x00, 0xFF,  // Usage Page (Vendor Defined 0xFF00)
    0x09, 0x01,  // Usage (0x01)
    0xA1, 0x01,  // Collection (Application)
    0x09, 0x02,  //   Usage (0x02) ; data in
    0x15, 0x00,  //   Logical Minimum (0)
    0x26, 0xFF, 0x00,  //   Logical Maximum (255)
    0x95, 0x40,  //   Report Count (64)
    0x75, 0x08,  //   Report Size (8)
    0x81, 0x02,  //   Input (Data,Var,Abs)
    0x09, 0x03,  //   Usage (0x03) ; data out
    0x91, 0x02,  //   Output (Data,Var,Abs)
    0xC0,  // End Collection
];

// Commands.
pub const CMD_INFO: u8 = 0x01;
pub const CMD_READ_DEFAULTS: u8 = 0x02;
pub const CMD_READ_OVERRIDES: u8 = 0x03;
pub const CMD_WRITE: u8 = 0x04;
pub const CMD_COMMIT: u8 = 0x05;
pub const CMD_RESET: u8 = 0x06;
pub const CMD_REBOOT: u8 = 0x07;
pub const CMD_READ_PARAMS: u8 = 0x08;
pub const CMD_WRITE_PARAMS: u8 = 0x09;
pub const CMD_READ_MATRIX: u8 = 0x0a;
pub const CMD_READ_LASTKEY: u8 = 0x0b;

// Sections (the same ids as the IR's).
pub const SEC_LAYERS: u8 = 1;
pub const SEC_COMBO2: u8 = 2;
pub const SEC_COMBO3: u8 = 3;
pub const SEC_MODES: u8 = 4;
pub const SEC_EXTRA: u8 = 5;

// Status.
pub const ST_OK: u8 = 0x00;
pub const ST_ERR: u8 = 0x01;
pub const ST_UNKNOWN: u8 = 0x02;

pub const PROTO_VER: u8 = 2;
pub const FW_MAJOR: u8 = 0;
pub const FW_MINOR: u8 = 2;

/// The result of a command: the IN report; whether to reboot (after the
/// report is sent); whether to clear the last-key record (it was fresh and
/// has now been reported).
pub struct Outcome {
    pub resp: [u8; REPORT_LEN],
    pub reboot: bool,
    pub clear_last_key: bool,
}

/// The flash work a command needs before it is answered.
#[derive(Clone, Copy, Debug, PartialEq, Eq, Structural)]
pub enum FlashOp {
    Nothing,
    /// Store the staged configuration (COMMIT).
    WriteConfig,
    /// Erase the stored configuration (RESET).
    EraseConfig,
}

/// The flash work of a command byte.
pub open spec fn flash_op_of(cmd: u8) -> FlashOp {
    if cmd == CMD_COMMIT {
        FlashOp::WriteConfig
    } else if cmd == CMD_RESET {
        FlashOp::EraseConfig
    } else {
        FlashOp::Nothing
    }
}

/// The flash work the command in `cmd_buf` needs; its success is handed to
/// `handle_command`.
pub fn flash_op(cmd_buf: &[u8; REPORT_LEN]) -> (r: FlashOp)
    ensures
        r == flash_op_of(cmd_buf@[0]),
{
    let cmd = cmd_buf[0];
    if cmd == CMD_COMMIT {
        FlashOp::WriteConfig
    } else if cmd == CMD_RESET {
        FlashOp::EraseConfig
    } else {
        FlashOp::Nothing
    }
}

// ---------------------------------------------------------------------
// Wire values of the layout's actions
// ---------------------------------------------------------------------

/// Key presses as bytes: usage, modifiers, usage, modifiers, ...
pub open spec fn keys_bytes(k: Seq<KeyPress>) -> Seq<u8> {
    Seq::new(2 * k.len(), |i: int| if i % 2 == 0 { k[i / 2].usage } else { k[i / 2].modifiers })
}

/// The number of kana bytes sent: at most `MAX_KANA_LEN`.
pub open spec fn kana_wire_len(n: nat) -> nat {
    if n < MAX_KANA_LEN {
        n
    } else {
        MAX_KANA_LEN as nat
    }
}

/// The number of keys sent: at most `MAX_KEYS`.
pub open spec fn keys_wire_len(n: nat) -> nat {
    if n < MAX_KEYS {
        n
    } else {
        MAX_KEYS as nat
    }
}

/// The wire value of an action: tag, payload length, payload. Kana bytes
/// are cut at `MAX_KANA_LEN`, keys at `MAX_KEYS`; an unassigned action is an
/// empty kana.
pub open spec fn wire_of(a: Action) -> Seq<u8> {
    match a {
        Action::Kana(s) => {
            let l = kana_wire_len(s.spec_bytes().len());
            seq![TAG_KANA, l as u8] + s.spec_bytes().take(l as int)
        },
        Action::Keys(k) => {
            let n = keys_wire_len(k@.len());
            seq![TAG_KEYS, (2 * n) as u8] + keys_bytes(k@.take(n as int))
        },
        Action::Undefined => seq![TAG_KANA, 0],
    }
}

/// Appends the wire value of `a`.
fn write_action(out: &mut Vec<u8>, a: Action)
    ensures
        final(out)@ == old(out)@ + wire_of(a),
{
    match a {
        Action::Kana(s) => {
            let b = s.as_bytes();
            let l = if b.len() < MAX_KANA_LEN {
                b.len()
            } else {
                MAX_KANA_LEN
            };
            out.push(TAG_KANA);
            out.push(l as u8);
            let ghost start = out@;
            let mut i: usize = 0;
            while i < l
                invariant
                    i <= l <= b@.len(),
                    out@ == start + b@.take(i as int),
                decreases l - i,
            {
                out.push(b[i]);
                i += 1;
                assert(out@ =~= start + b@.take(i as int));
            }
            assert(out@ =~= old(out)@ + wire_of(a));
        },
        Action::Keys(k) => {
            let n = if k.len() < MAX_KEYS {
                k.len()
            } else {
                MAX_KEYS
            };
            out.push(TAG_KEYS);
            out.push((n * 2) as u8);
            let ghost start = out@;
            let mut i: usize = 0;
            while i < n
                invariant
                    i <= n <= k@.len(),
                    n <= MAX_KEYS,
                    out@ == start + keys_bytes(k@.take(i as int)),
                decreases n - i,
            {
                out.push(k[i].usage);
                out.push(k[i].modifiers);
                i += 1;
                assert(keys_bytes(k@.take(i as int)) =~= keys_bytes(k@.take(i - 1)).push(
                    k@[i - 1].usage,
                ).push(k@[i - 1].modifiers));
                assert(out@ =~= start + keys_bytes(k@.take(i as int)));
            }
            assert(out@ =~= old(out)@ + wire_of(a));
        },
        Action::Undefined => {
            out.push(TAG_KANA);
            out.push(0);
            assert(out@ =~= old(out)@ + wire_of(a));
        },
    }
}

// ---------------------------------------------------------------------
// Pages of entries
// ---------------------------------------------------------------------

/// The bytes of entries one after the other.
pub open spec fn flat(s: Seq<Seq<u8>>) -> Seq<u8>
    decreases s.len(),
{
    if s.len() == 0 {
        Seq::empty()
    } else {
        flat(s.drop_last()) + s.last()
    }
}

/// The entries from `i` on that fit in a report when the first is written
/// at `off`: entries are taken while the next one still fits.
pub open spec fn pack(items: Seq<Seq<u8>>, i: int, off: int) -> Seq<Seq<u8>>
    decreases items.len() - i,
{
    if i < 0 || i >= items.len() || off + items[i].len() > REPORT_LEN {
        Seq::empty()
    } else {
        seq![items[i]] + pack(items, i + 1, off + items[i].len())
    }
}

/// A page of entries from index `start`: `[3]` = `first`, `[4..6]` = index
/// of the next entry, `[6]` = number of entries, `[7..]` = the entries.
pub open spec fn page_of(first: u8, start: u16, items: Seq<Seq<u8>>) -> Seq<u8> {
    let taken = pack(items, start as int, 7);
    seq![first] + le16(((start + taken.len()) % 65536) as u16) + seq![taken.len() as u8] + flat(
        taken,
    )
}

/// Whether every entry has at least one byte.
pub open spec fn items_nonempty(items: Seq<Seq<u8>>) -> bool {
    forall|i: int| 0 <= i < items.len() ==> #[trigger] items[i].len() > 0
}

/// The entries of `v` as byte sequences.
pub open spec fn items_view(v: Seq<Vec<u8>>) -> Seq<Seq<u8>> {
    v.map_values(|x: Vec<u8>| x@)
}

proof fn lemma_items_view_push(s: Seq<Vec<u8>>, x: Vec<u8>)
    ensures
        items_view(s.push(x)) == items_view(s).push(x@),
{
    assert(items_view(s.push(x)) =~= items_view(s).push(x@));
}

fn push_u16(out: &mut Vec<u8>, v: u16)
    ensures
        final(out)@ == old(out)@ + le16(v),
{
    let lo: u8 = (v & 0xff) as u8;
    let hi: u8 = (v >> 8) as u8;
    assert(lo == v % 256 && hi == v / 256) by (bit_vector)
        requires
            lo == (v & 0xff) as u8,
            hi == (v >> 8) as u8,
    ;
    out.push(lo);
    out.push(hi);
    assert(out@ =~= old(out)@ + le16(v));
}

fn push_all(out: &mut Vec<u8>, b: &Vec<u8>)
    ensures
        final(out)@ == old(out)@ + b@,
{
    let mut i: usize = 0;
    while i < b.len()
        invariant
            i <= b@.len(),
            out@ == old(out)@ + b@.take(i as int),
        decreases b@.len() - i,
    {
        out.push(b[i]);
        i += 1;
        assert(out@ =~= old(out)@ + b@.take(i as int));
    }
    assert(b@.take(b@.len() as int) =~= b@);
}

/// Appends the page of `items` from `start` (see `page_of`).
fn push_page(out: &mut Vec<u8>, first: u8, start: u16, items: &Vec<Vec<u8>>)
    requires
        items_nonempty(items_view(items@)),
    ensures
        final(out)@ == old(out)@ + page_of(first, start, items_view(items@)),
        page_of(first, start, items_view(items@)).len() <= REPORT_LEN - 3,
{
    let ghost iv = items_view(items@);
    let mut body: Vec<u8> = Vec::new();
    let mut off: usize = 7;
    let mut count: usize = 0;
    let mut i: usize = start as usize;
    let ghost mut taken: Seq<Seq<u8>> = Seq::empty();
    while i < items.len()
        invariant_except_break
            iv == items_view(items@),
            items_nonempty(iv),
            off == 7 + body@.len(),
            off <= REPORT_LEN,
            count == taken.len(),
            count <= body@.len(),
            body@ == flat(taken),
            pack(iv, start as int, 7) == taken + pack(iv, i as int, off as int),
        ensures
            iv == items_view(items@),
            off == 7 + body@.len(),
            off <= REPORT_LEN,
            count == taken.len(),
            count <= body@.len(),
            body@ == flat(taken),
            pack(iv, start as int, 7) == taken,
        decreases items@.len() - i,
    {
        let it = &items[i];
        assert(iv[i as int] == it@);
        if it.len() > REPORT_LEN - off {
            assert(pack(iv, i as int, off as int) =~= Seq::<Seq<u8>>::empty());
            assert(taken + pack(iv, i as int, off as int) =~= taken);
            break;
        }
        push_all(&mut body, it);
        proof {
            let t2 = taken.push(it@);
            assert(t2.drop_last() =~= taken);
            assert(taken + pack(iv, i as int, off as int) =~= t2 + pack(iv, i + 1, off + it@.len()));
            taken = t2;
        }
        off = off + it.len();
        count = count + 1;
        i += 1;
    }
    proof {
        if i >= items.len() {
            assert(pack(iv, i as int, off as int) =~= Seq::<Seq<u8>>::empty());
            assert(taken + pack(iv, i as int, off as int) =~= taken);
        }
    }
    out.push(first);
    let next: u16 = ((start as usize + count) % 65536) as u16;
    push_u16(out, next);
    out.push(count as u8);
    push_all(out, &body);
    assert(out@ =~= old(out)@ + page_of(first, start, iv));
}

// ---------------------------------------------------------------------
// Entries of the defaults, of the matrix and of the staged differences
// ---------------------------------------------------------------------

/// A 16-bit key as two bytes, high byte first or low byte first.
pub open spec fn key16_bytes(k: u16, hi_first: bool) -> Seq<u8> {
    if hi_first {
        seq![(k / 256) as u8, (k % 256) as u8]
    } else {
        seq![(k % 256) as u8, (k / 256) as u8]
    }
}

/// A three-key chord key as its three bytes, low byte first.
pub open spec fn key24_bytes(k: u32) -> Seq<u8> {
    seq![(k % 256) as u8, ((k / 256) % 256) as u8, ((k / 65536) % 256) as u8]
}

/// An entry of a 16-bit keyed layout table: key bytes and wire value.
pub open spec fn item16(e: (u16, (&'static str, u8)), hi_first: bool) -> Seq<u8> {
    key16_bytes(e.0, hi_first) + wire_of(entry_action_of(e.1))
}

/// An entry of the three-key chord table: key bytes and wire value.
pub open spec fn item24(e: (u32, (&'static str, u8))) -> Seq<u8> {
    key24_bytes(e.0) + wire_of(entry_action_of(e.1))
}

/// The default entries of a section: layers and editing modes as
/// (mask or mode, sc), two-key chords as (a, b), three-key chords as
/// (a, b, c); no entries for other sections.
pub open spec fn default_items_of(section: u8) -> Seq<Seq<u8>> {
    if section == SEC_LAYERS {
        LAYERS@.map_values(|e: (u16, (&'static str, u8))| item16(e, true))
    } else if section == SEC_COMBO2 {
        COMBO2@.map_values(|e: (u16, (&'static str, u8))| item16(e, false))
    } else if section == SEC_COMBO3 {
        COMBO3@.map_values(|e: (u32, (&'static str, u8))| item24(e))
    } else if section == SEC_MODES {
        MODE_LAYERS@.map_values(|e: (u16, (&'static str, u8))| item16(e, true))
    } else {
        Seq::empty()
    }
}

/// A matrix entry: hand, row, col, sc.
pub open spec fn matrix_item(hand: u8, e: (u8, u8)) -> Seq<u8> {
    seq![hand, (e.0 / 16) % 16, e.0 % 16, e.1]
}

/// The matrix entries, left half (hand 0) then right half (hand 1).
pub open spec fn matrix_items_of() -> Seq<Seq<u8>> {
    MATRIX_LEFT@.map_values(|e: (u8, u8)| matrix_item(0, e)) + MATRIX_RIGHT@.map_values(
        |e: (u8, u8)| matrix_item(1, e),
    )
}

/// The staged entries of a section (layers to direct keys): key bytes and
/// encoded value; no entries for other sections.
pub open spec fn override_items_of(c: ConfigView, section: u8) -> Seq<Seq<u8>> {
    if SEC_LAYERS <= section && section <= SEC_EXTRA {
        section_of(c, section).map_values(|e: (Seq<u8>, crate::config::Val)| e.0 + enc_val(e.1))
    } else {
        Seq::empty()
    }
}

fn push_key16(out: &mut Vec<u8>, k: u16, hi_first: bool)
    ensures
        final(out)@ == old(out)@ + key16_bytes(k, hi_first),
{
    let hi: u8 = (k >> 8) as u8;
    let lo: u8 = (k & 0xff) as u8;
    assert(lo == k % 256 && hi == k / 256) by (bit_vector)
        requires
            lo == (k & 0xff) as u8,
            hi == (k >> 8) as u8,
    ;
    if hi_first {
        out.push(hi);
        out.push(lo);
    } else {
        out.push(lo);
        out.push(hi);
    }
    assert(out@ =~= old(out)@ + key16_bytes(k, hi_first));
}

fn items16(t: &[(u16, (&'static str, u8))], hi_first: bool) -> (r: Vec<Vec<u8>>)
    ensures
        items_view(r@) == t@.map_values(|e: (u16, (&'static str, u8))| item16(e, hi_first)),
{
    let ghost want = t@.map_values(|e: (u16, (&'static str, u8))| item16(e, hi_first));
    let mut r: Vec<Vec<u8>> = Vec::new();
    let mut i: usize = 0;
    while i < t.len()
        invariant
            i <= t@.len(),
            want == t@.map_values(|e: (u16, (&'static str, u8))| item16(e, hi_first)),
            items_view(r@) == want.take(i as int),
        decreases t@.len() - i,
    {
        let (k, e) = t[i];
        let mut item: Vec<u8> = Vec::new();
        push_key16(&mut item, k, hi_first);
        write_action(&mut item, entry_action(e));
        assert(item@ =~= item16(t@[i as int], hi_first));
        proof {
            lemma_items_view_push(r@, item);
        }
        r.push(item);
        i += 1;
        assert(items_view(r@) =~= want.take(i as int));
    }
    assert(want.take(t@.len() as int) =~= want);
    r
}

fn items24(t: &[(u32, (&'static str, u8))]) -> (r: Vec<Vec<u8>>)
    ensures
        items_view(r@) == t@.map_values(|e: (u32, (&'static str, u8))| item24(e)),
{
    let ghost want = t@.map_values(|e: (u32, (&'static str, u8))| item24(e));
    let mut r: Vec<Vec<u8>> = Vec::new();
    let mut i: usize = 0;
    while i < t.len()
        invariant
            i <= t@.len(),
            want == t@.map_values(|e: (u32, (&'static str, u8))| item24(e)),
            items_view(r@) == want.take(i as int),
        decreases t@.len() - i,
    {
        let (k, e) = t[i];
        let b0: u8 = #[verifier::truncate] ((k & 0xff) as u8);
        let b1: u8 = #[verifier::truncate] (((k >> 8) & 0xff) as u8);
        let b2: u8 = #[verifier::truncate] (((k >> 16) & 0xff) as u8);
        assert(b0 == k % 256 && b1 == (k / 256) % 256 && b2 == (k / 65536) % 256) by (bit_vector)
            requires
                b0 == #[verifier::truncate] ((k & 0xff) as u8),
                b1 == #[verifier::truncate] (((k >> 8) & 0xff) as u8),
                b2 == #[verifier::truncate] (((k >> 16) & 0xff) as u8),
        ;
        let mut item: Vec<u8> = Vec::new();
        item.push(b0);
        item.push(b1);
        item.push(b2);
        write_action(&mut item, entry_action(e));
        assert(item@ =~= item24(t@[i as int]));
        proof {
            lemma_items_view_push(r@, item);
        }
        r.push(item);
        i += 1;
        assert(items_view(r@) =~= want.take(i as int));
    }
    assert(want.take(t@.len() as int) =~= want);
    r
}

/// The default entries of a section.
fn default_items(section: u8) -> (r: Vec<Vec<u8>>)
    ensures
        items_view(r@) == default_items_of(section),
{
    if section == SEC_LAYERS {
        items16(&LAYERS, true)
    } else if section == SEC_COMBO2 {
        items16(&COMBO2, false)
    } else if section == SEC_COMBO3 {
        items24(&COMBO3)
    } else if section == SEC_MODES {
        items16(&MODE_LAYERS, true)
    } else {
        let r: Vec<Vec<u8>> = Vec::new();
        assert(items_view(r@) =~= Seq::<Seq<u8>>::empty());
        r
    }
}

fn push_matrix_items(r: &mut Vec<Vec<u8>>, hand: u8, t: &[(u8, u8)])
    ensures
        items_view(final(r)@) == items_view(old(r)@) + t@.map_values(|e: (u8, u8)| matrix_item(hand, e)),
{
    let ghost want = t@.map_values(|e: (u8, u8)| matrix_item(hand, e));
    let mut i: usize = 0;
    while i < t.len()
        invariant
            i <= t@.len(),
            want == t@.map_values(|e: (u8, u8)| matrix_item(hand, e)),
            items_view(r@) == items_view(old(r)@) + want.take(i as int),
        decreases t@.len() - i,
    {
        let (k, sc) = t[i];
        let row: u8 = (k >> 4) & 0x0f;
        let col: u8 = k & 0x0f;
        assert(row == (k / 16) % 16 && col == k % 16) by (bit_vector)
            requires
                row == (k >> 4) & 0x0f,
                col == k & 0x0f,
        ;
        let mut item: Vec<u8> = Vec::new();
        item.push(hand);
        item.push(row);
        item.push(col);
        item.push(sc);
        assert(item@ =~= matrix_item(hand, t@[i as int]));
        proof {
            lemma_items_view_push(r@, item);
        }
        r.push(item);
        i += 1;
        assert(items_view(r@) =~= items_view(old(r)@) + want.take(i as int));
    }
    assert(want.take(t@.len() as int) =~= want);
}

/// The matrix entries.
fn matrix_items() -> (r: Vec<Vec<u8>>)
    ensures
        items_view(r@) == matrix_items_of(),
{
    let mut r: Vec<Vec<u8>> = Vec::new();
    assert(items_view(r@) =~= Seq::<Seq<u8>>::empty());
    push_matrix_items(&mut r, 0, &MATRIX_LEFT);
    push_matrix_items(&mut r, 1, &MATRIX_RIGHT);
    assert(items_view(r@) =~= matrix_items_of());
    r
}

/// The staged entries of layers or editing modes.
fn pair_items(list: &Vec<(u8, u8, OverrideVal)>) -> (r: Vec<Vec<u8>>)
    requires
        entries_wf(view_pairs(list@)),
    ensures
        items_view(r@) == view_pairs(list@).map_values(|e: (Seq<u8>, Val)| e.0 + enc_val(e.1)),
{
    let ghost want = view_pairs(list@).map_values(|e: (Seq<u8>, Val)| e.0 + enc_val(e.1));
    let mut r: Vec<Vec<u8>> = Vec::new();
    let mut i: usize = 0;
    while i < list.len()
        invariant
            i <= list@.len(),
            entries_wf(view_pairs(list@)),
            want == view_pairs(list@).map_values(|e: (Seq<u8>, Val)| e.0 + enc_val(e.1)),
            items_view(r@) == want.take(i as int),
        decreases list@.len() - i,
    {
        let e = &list[i];
        assert(val_wf(view_pairs(list@)[i as int].1));
        let mut item: Vec<u8> = Vec::new();
        item.push(e.0);
        item.push(e.1);
        let b = e.2.enc_bytes();
        push_all(&mut item, &b);
        assert(item@ =~= want[i as int]);
        proof {
            lemma_items_view_push(r@, item);
        }
        r.push(item);
        i += 1;
        assert(items_view(r@) =~= want.take(i as int));
    }
    assert(want.take(list@.len() as int) =~= want);
    r
}

fn keyed2_items(list: &Vec<([u8; 2], OverrideVal)>) -> (r: Vec<Vec<u8>>)
    requires
        entries_wf(view_keyed2(list@)),
    ensures
        items_view(r@) == view_keyed2(list@).map_values(|e: (Seq<u8>, Val)| e.0 + enc_val(e.1)),
{
    let ghost want = view_keyed2(list@).map_values(|e: (Seq<u8>, Val)| e.0 + enc_val(e.1));
    let mut r: Vec<Vec<u8>> = Vec::new();
    let mut i: usize = 0;
    while i < list.len()
        invariant
            i <= list@.len(),
            entries_wf(view_keyed2(list@)),
            want == view_keyed2(list@).map_values(|e: (Seq<u8>, Val)| e.0 + enc_val(e.1)),
            items_view(r@) == want.take(i as int),
        decreases list@.len() - i,
    {
        let e = &list[i];
        assert(val_wf(view_keyed2(list@)[i as int].1));
        let mut item: Vec<u8> = Vec::new();
        item.push(e.0[0]);
        item.push(e.0[1]);
        let b = e.1.enc_bytes();
        push_all(&mut item, &b);
        assert(item@ =~= want[i as int]);
        proof {
            lemma_items_view_push(r@, item);
        }
        r.push(item);
        i += 1;
        assert(items_view(r@) =~= want.take(i as int));
    }
    assert(want.take(list@.len() as int) =~= want);
    r
}

fn keyed3_items(list: &Vec<([u8; 3], OverrideVal)>) -> (r: Vec<Vec<u8>>)
    requires
        entries_wf(view_keyed3(list@)),
    ensures
        items_view(r@) == view_keyed3(list@).map_values(|e: (Seq<u8>, Val)| e.0 + enc_val(e.1)),
{
    let ghost want = view_keyed3(list@).map_values(|e: (Seq<u8>, Val)| e.0 + enc_val(e.1));
    let mut r: Vec<Vec<u8>> = Vec::new();
    let mut i: usize = 0;
    while i < list.len()
        invariant
            i <= list@.len(),
            entries_wf(view_keyed3(list@)),
            want == view_keyed3(list@).map_values(|e: (Seq<u8>, Val)| e.0 + enc_val(e.1)),
            items_view(r@) == want.take(i as int),
        decreases list@.len() - i,
    {
        let e = &list[i];
        assert(val_wf(view_keyed3(list@)[i as int].1));
        let mut item: Vec<u8> = Vec::new();
        item.push(e.0[0]);
        item.push(e.0[1]);
        item.push(e.0[2]);
        let b = e.1.enc_bytes();
        push_all(&mut item, &b);
        assert(item@ =~= want[i as int]);
        proof {
            lemma_items_view_push(r@, item);
        }
        r.push(item);
        i += 1;
        assert(items_view(r@) =~= want.take(i as int));
    }
    assert(want.take(list@.len() as int) =~= want);
    r
}

fn triple_items(list: &Vec<(u8, u8, u8, OverrideVal)>) -> (r: Vec<Vec<u8>>)
    requires
        entries_wf(view_triples(list@)),
    ensures
        items_view(r@) == view_triples(list@).map_values(|e: (Seq<u8>, Val)| e.0 + enc_val(e.1)),
{
    let ghost want = view_triples(list@).map_values(|e: (Seq<u8>, Val)| e.0 + enc_val(e.1));
    let mut r: Vec<Vec<u8>> = Vec::new();
    let mut i: usize = 0;
    while i < list.len()
        invariant
            i <= list@.len(),
            entries_wf(view_triples(list@)),
            want == view_triples(list@).map_values(|e: (Seq<u8>, Val)| e.0 + enc_val(e.1)),
            items_view(r@) == want.take(i as int),
        decreases list@.len() - i,
    {
        let e = &list[i];
        assert(val_wf(view_triples(list@)[i as int].1));
        let mut item: Vec<u8> = Vec::new();
        item.push(e.0);
        item.push(e.1);
        item.push(e.2);
        let b = e.3.enc_bytes();
        push_all(&mut item, &b);
        assert(item@ =~= want[i as int]);
        proof {
            lemma_items_view_push(r@, item);
        }
        r.push(item);
        i += 1;
        assert(items_view(r@) =~= want.take(i as int));
    }
    assert(want.take(list@.len() as int) =~= want);
    r
}

/// The staged entries of a section.
fn override_items(cfg: &Config, section: u8) -> (r: Vec<Vec<u8>>)
    requires
        config_wf(cfg@),
    ensures
        items_view(r@) == override_items_of(cfg@, section),
{
    if section == SEC_LAYERS {
        pair_items(&cfg.layers)
    } else if section == SEC_COMBO2 {
        keyed2_items(&cfg.combo2)
    } else if section == SEC_COMBO3 {
        keyed3_items(&cfg.combo3)
    } else if section == SEC_MODES {
        pair_items(&cfg.modes)
    } else if section == SEC_EXTRA {
        triple_items(&cfg.extra)
    } else {
        let r: Vec<Vec<u8>> = Vec::new();
        assert(items_view(r@) =~= Seq::<Seq<u8>>::empty());
        r
    }
}

// ---------------------------------------------------------------------
// Commands
// ---------------------------------------------------------------------

/// A WRITE command applied to the staged configuration: `[2]` = section,
/// the key bytes (two, or three for three-key chords and direct keys), then
/// a value `[tag][len][payload]`; a value of length 0 removes the entry.
/// `None`: an unknown section, a value that does not decode, or a set that
/// fails (the section is full).
pub open spec fn write_of(b: Seq<u8>, c: ConfigView) -> Option<ConfigView> {
    let section = b[2];
    if SEC_LAYERS <= section && section <= SEC_EXTRA {
        let val_off: int = 3 + width_of(section)->0 as int;
        let key = b.subrange(3, val_off);
        if b[val_off + 1] == 0 {
            Some(remove_in(c, section, key))
        } else {
            match dec_val(b, val_off) {
                None => None,
                Some((v, _)) => set_in(c, section, key, v),
            }
        }
    } else {
        None
    }
}

/// Applies a WRITE command to `staged`.
fn write_entry(cmd_buf: &[u8; REPORT_LEN], staged: &mut Config) -> (r: Result<(), ()>)
    requires
        config_wf(old(staged)@),
    ensures
        match write_of(cmd_buf@, old(staged)@) {
            Some(c) => r is Ok && final(staged)@ == c,
            None => r is Err && final(staged)@ == old(staged)@,
        },
        config_wf(final(staged)@),
{
    let section = cmd_buf[2];
    let val_off: usize = if section == SEC_LAYERS || section == SEC_COMBO2 || section == SEC_MODES {
        5
    } else if section == SEC_COMBO3 || section == SEC_EXTRA {
        6
    } else {
        return Err(());
    };
    let ghost key = cmd_buf@.subrange(3, val_off as int);
    let is_remove = cmd_buf[val_off + 1] == 0;
    if is_remove {
        proof {
            crate::config::laws::lemma_remove_wf(staged@, section, key);
        }
        if section == SEC_LAYERS {
            assert(key =~= seq![cmd_buf@[3], cmd_buf@[4]]);
            staged.remove_layer(cmd_buf[3], cmd_buf[4]);
        } else if section == SEC_COMBO2 {
            assert(key =~= seq![cmd_buf@[3], cmd_buf@[4]]);
            staged.remove_combo2(cmd_buf[3], cmd_buf[4]);
        } else if section == SEC_MODES {
            assert(key =~= seq![cmd_buf@[3], cmd_buf@[4]]);
            staged.remove_mode(cmd_buf[3], cmd_buf[4]);
        } else if section == SEC_COMBO3 {
            assert(key =~= seq![cmd_buf@[3], cmd_buf@[4], cmd_buf@[5]]);
            staged.remove_combo3(cmd_buf[3], cmd_buf[4], cmd_buf[5]);
        } else {
            assert(key =~= seq![cmd_buf@[3], cmd_buf@[4], cmd_buf@[5]]);
            staged.remove_extra(cmd_buf[3], cmd_buf[4], cmd_buf[5]);
        }
        Ok(())
    } else {
        let (v, _) = match OverrideVal::decode(cmd_buf, val_off) {
            Some(x) => x,
            None => {
                return Err(());
            },
        };
        proof {
            crate::config::laws::lemma_dec_val_wf(cmd_buf@, val_off as int);
            if set_in(staged@, section, key, v@) is Some {
                crate::config::laws::lemma_set_wf(staged@, section, key, v@);
            }
        }
        if section == SEC_LAYERS {
            assert(key =~= seq![cmd_buf@[3], cmd_buf@[4]]);
            staged.set_layer(cmd_buf[3], cmd_buf[4], v)
        } else if section == SEC_COMBO2 {
            assert(key =~= seq![cmd_buf@[3], cmd_buf@[4]]);
            staged.set_combo2(cmd_buf[3], cmd_buf[4], v)
        } else if section == SEC_MODES {
            assert(key =~= seq![cmd_buf@[3], cmd_buf@[4]]);
            staged.set_mode(cmd_buf[3], cmd_buf[4], v)
        } else if section == SEC_COMBO3 {
            assert(key =~= seq![cmd_buf@[3], cmd_buf@[4], cmd_buf@[5]]);
            staged.set_combo3(cmd_buf[3], cmd_buf[4], cmd_buf[5], v)
        } else {
            assert(key =~= seq![cmd_buf@[3], cmd_buf@[4], cmd_buf@[5]]);
            staged.set_extra(cmd_buf[3], cmd_buf[4], cmd_buf[5], v)
        }
    }
}

/// Every entry of a page source has bytes.
proof fn lemma_items_nonempty(section: u8, c: ConfigView)
    ensures
        items_nonempty(default_items_of(section)),
        items_nonempty(matrix_items_of()),
        items_nonempty(override_items_of(c, section)),
{
    let d = default_items_of(section);
    assert forall|i: int| 0 <= i < d.len() implies #[trigger] d[i].len() > 0 by {
        if section == SEC_COMBO3 {
            assert(d[i] == item24(COMBO3@[i]));
        } else if section == SEC_LAYERS {
            assert(d[i] == item16(LAYERS@[i], true));
        } else if section == SEC_COMBO2 {
            assert(d[i] == item16(COMBO2@[i], false));
        } else {
            assert(d[i] == item16(MODE_LAYERS@[i], true));
        }
    }
    let m = matrix_items_of();
    assert forall|i: int| 0 <= i < m.len() implies #[trigger] m[i].len() > 0 by {
        if i < MATRIX_LEFT@.len() {
            assert(m[i] == matrix_item(0, MATRIX_LEFT@[i]));
        } else {
            assert(m[i] == matrix_item(1, MATRIX_RIGHT@[i - MATRIX_LEFT@.len()]));
        }
    }
    let o = override_items_of(c, section);
    assert forall|i: int| 0 <= i < o.len() implies #[trigger] o[i].len() > 0 by {
        let e = section_of(c, section)[i];
        assert(o[i] == e.0 + enc_val(e.1));
        assert(enc_val(e.1).len() >= 2);
    }
}

/// What a command does: the start of the IN report (the rest is zero),
/// whether to reboot, whether to clear the last-key record, and the staged
/// configuration after it.
pub struct Reply {
    pub head: Seq<u8>,
    pub reboot: bool,
    pub clear_last_key: bool,
    pub staged: ConfigView,
}

/// The IN report whose first bytes are `head`, zero after them.
pub open spec fn report_of(head: Seq<u8>) -> Seq<u8> {
    Seq::new(REPORT_LEN as nat, |i: int| if i < head.len() { head[i] } else { 0u8 })
}

/// The reply header: command, sequence number, status.
pub open spec fn hdr(b: Seq<u8>, status: u8) -> Seq<u8> {
    seq![b[0], b[1], status]
}

/// INFO: protocol version, firmware version, value limits, and the sizes of
/// the default tables.
pub open spec fn info_payload() -> Seq<u8> {
    seq![PROTO_VER, FW_MAJOR, FW_MINOR, MAX_KEYS as u8, MAX_KANA_LEN as u8] + le16(
        LAYERS@.len() as u16,
    ) + le16(COMBO2@.len() as u16) + le16(COMBO3@.len() as u16) + le16(MODE_LAYERS@.len() as u16)
}

/// READ_PARAMS: the four timings (16 bits each) and the LED brightness.
pub open spec fn params_payload(p: Params) -> Seq<u8> {
    le16(p.window_ms) + le16(p.tap_ms) + le16(p.repeat_delay_ms) + le16(p.repeat_interval_ms)
        + seq![p.led_brightness]
}

/// WRITE_PARAMS: the four timings at `[2..10]`, the brightness at `[10]`;
/// the flags are kept.
pub open spec fn written_params(b: Seq<u8>, p: Params) -> Params {
    Params {
        window_ms: get16(b, 2),
        tap_ms: get16(b, 4),
        repeat_delay_ms: get16(b, 6),
        repeat_interval_ms: get16(b, 8),
        led_brightness: b[10],
        flags: p.flags,
    }
}

/// READ_LASTKEY: hand, row and col of the last pressed position, and
/// whether it is fresh (not reported before). The record holds
/// `hand * 4096 + row * 16 + col`, plus 0x8000 while fresh.
pub open spec fn lastkey_payload(v: u16) -> Seq<u8> {
    let pos = v % 32768;
    seq![(pos / 4096) as u8, ((pos / 16) % 16) as u8, (pos % 16) as u8, if v >= 32768 {
        1u8
    } else {
        0u8
    }]
}

/// The reply to the command in `b`, with the staged configuration `c`,
/// the success of the command's flash work and the last-key record.
pub open spec fn command_of(b: Seq<u8>, c: ConfigView, flash_ok: bool, last_key: u16) -> Reply {
    let cmd = b[0];
    let ok = Reply { head: hdr(b, ST_OK), reboot: false, clear_last_key: false, staged: c };
    if cmd == CMD_INFO {
        Reply { head: hdr(b, ST_OK) + info_payload(), ..ok }
    } else if cmd == CMD_READ_DEFAULTS {
        Reply { head: hdr(b, ST_OK) + page_of(b[2], get16(b, 3), default_items_of(b[2])), ..ok }
    } else if cmd == CMD_READ_OVERRIDES {
        Reply {
            head: hdr(b, ST_OK) + page_of(b[2], get16(b, 3), override_items_of(c, b[2])),
            ..ok
        }
    } else if cmd == CMD_WRITE {
        match write_of(b, c) {
            Some(c2) => Reply { staged: c2, ..ok },
            None => Reply { head: hdr(b, ST_ERR), ..ok },
        }
    } else if cmd == CMD_COMMIT {
        if flash_ok {
            ok
        } else {
            Reply { head: hdr(b, ST_ERR), ..ok }
        }
    } else if cmd == CMD_RESET {
        if flash_ok {
            Reply { staged: default_config(), ..ok }
        } else {
            Reply { head: hdr(b, ST_ERR), ..ok }
        }
    } else if cmd == CMD_READ_PARAMS {
        Reply { head: hdr(b, ST_OK) + params_payload(c.params), ..ok }
    } else if cmd == CMD_WRITE_PARAMS {
        Reply { staged: ConfigView { params: written_params(b, c.params), ..c }, ..ok }
    } else if cmd == CMD_READ_MATRIX {
        Reply { head: hdr(b, ST_OK) + page_of(0, get16(b, 2), matrix_items_of()), ..ok }
    } else if cmd == CMD_READ_LASTKEY {
        Reply {
            head: hdr(b, ST_OK) + lastkey_payload(last_key),
            clear_last_key: last_key >= 32768,
            ..ok
        }
    } else if cmd == CMD_REBOOT {
        Reply { reboot: true, ..ok }
    } else {
        Reply { head: hdr(b, ST_UNKNOWN), ..ok }
    }
}

fn get_u16(buf: &[u8; REPORT_LEN], off: usize) -> (r: u16)
    requires
        off + 1 < REPORT_LEN,
    ensures
        r == get16(buf@, off as int),
{
    let lo = buf[off];
    let hi = buf[off + 1];
    let r: u16 = (lo as u16) | ((hi as u16) << 8);
    assert(r == (lo + 256 * hi) as u16) by (bit_vector)
        requires
            r == (lo as u16) | ((hi as u16) << 8),
    ;
    r
}

/// The IN report with `head` at its start.
fn to_report(head: &Vec<u8>) -> (r: [u8; REPORT_LEN])
    requires
        head@.len() <= REPORT_LEN,
    ensures
        r@ == report_of(head@),
{
    let mut r = [0u8; REPORT_LEN];
    let mut i: usize = 0;
    while i < head.len()
        invariant
            i <= head@.len() <= REPORT_LEN,
            r@ == Seq::new(REPORT_LEN as nat, |j: int| if j < i { head@[j] } else { 0u8 }),
        decreases head@.len() - i,
    {
        r[i] = head[i];
        i += 1;
        assert(r@ =~= Seq::new(REPORT_LEN as nat, |j: int| if j < i { head@[j] } else { 0u8 }));
    }
    assert(r@ =~= report_of(head@));
    r
}

/// Handles one command of the configuration channel. `flash_ok` is the
/// success of the flash work that `flash_op` asked for (ignored by other
/// commands); `last_key` is the last-key record.
pub fn handle_command(cmd_buf: &[u8; REPORT_LEN], staged: &mut Config, flash_ok: bool, last_key: u16) -> (o: Outcome)
    requires
        config_wf(old(staged)@),
    ensures
        ({
            let want = command_of(cmd_buf@, old(staged)@, flash_ok, last_key);
            &&& o.resp@ == report_of(want.head)
            &&& o.reboot == want.reboot
            &&& o.clear_last_key == want.clear_last_key
            &&& final(staged)@ == want.staged
        }),
        config_wf(final(staged)@),
{
    let ghost b = cmd_buf@;
    let cmd = cmd_buf[0];
    let seq = cmd_buf[1];
    let mut head: Vec<u8> = Vec::new();
    head.push(cmd);
    head.push(seq);
    let mut reboot = false;
    let mut clear_last_key = false;
    proof {
        lemma_items_nonempty(cmd_buf@[2], staged@);
    }
    if cmd == CMD_INFO {
        head.push(ST_OK);
        head.push(PROTO_VER);
        head.push(FW_MAJOR);
        head.push(FW_MINOR);
        head.push(MAX_KEYS as u8);
        head.push(MAX_KANA_LEN as u8);
        push_u16(&mut head, LAYERS.len() as u16);
        push_u16(&mut head, COMBO2.len() as u16);
        push_u16(&mut head, COMBO3.len() as u16);
        push_u16(&mut head, MODE_LAYERS.len() as u16);
        assert(head@ =~= hdr(b, ST_OK) + info_payload());
    } else if cmd == CMD_READ_DEFAULTS {
        head.push(ST_OK);
        let section = cmd_buf[2];
        let start = get_u16(cmd_buf, 3);
        let items = default_items(section);
        push_page(&mut head, section, start, &items);
        assert(head@ =~= hdr(b, ST_OK) + page_of(b[2], get16(b, 3), default_items_of(b[2])));
    } else if cmd == CMD_READ_OVERRIDES {
        head.push(ST_OK);
        let section = cmd_buf[2];
        let start = get_u16(cmd_buf, 3);
        let items = override_items(staged, section);
        push_page(&mut head, section, start, &items);
        assert(head@ =~= hdr(b, ST_OK) + page_of(b[2], get16(b, 3), override_items_of(staged@, b[2])));
    } else if cmd == CMD_WRITE {
        let st = if write_entry(cmd_buf, staged).is_err() {
            ST_ERR
        } else {
            ST_OK
        };
        head.push(st);
    } else if cmd == CMD_COMMIT {
        head.push(if flash_ok {
            ST_OK
        } else {
            ST_ERR
        });
    } else if cmd == CMD_RESET {
        if flash_ok {
            *staged = Config::default();
            head.push(ST_OK);
        } else {
            head.push(ST_ERR);
        }
    } else if cmd == CMD_READ_PARAMS {
        head.push(ST_OK);
        push_u16(&mut head, staged.params.window_ms);
        push_u16(&mut head, staged.params.tap_ms);
        push_u16(&mut head, staged.params.repeat_delay_ms);
        push_u16(&mut head, staged.params.repeat_interval_ms);
        head.push(staged.params.led_brightness);
        assert(head@ =~= hdr(b, ST_OK) + params_payload(staged@.params));
    } else if cmd == CMD_WRITE_PARAMS {
        head.push(ST_OK);
        let flags = staged.params.flags;
        staged.params = Params {
            window_ms: get_u16(cmd_buf, 2),
            tap_ms: get_u16(cmd_buf, 4),
            repeat_delay_ms: get_u16(cmd_buf, 6),
            repeat_interval_ms: get_u16(cmd_buf, 8),
            led_brightness: cmd_buf[10],
            flags,
        };
    } else if cmd == CMD_READ_MATRIX {
        head.push(ST_OK);
        let start = get_u16(cmd_buf, 2);
        let items = matrix_items();
        push_page(&mut head, 0, start, &items);
        assert(head@ =~= hdr(b, ST_OK) + page_of(0, get16(b, 2), matrix_items_of()));
    } else if cmd == CMD_READ_LASTKEY {
        head.push(ST_OK);
        let fresh = last_key & 0x8000 != 0;
        clear_last_key = fresh;
        let pos = last_key & 0x7fff;
        let hand: u8 = (pos >> 12) as u8;
        let row: u8 = ((pos >> 4) & 0x0f) as u8;
        let col: u8 = (pos & 0x0f) as u8;
        assert(fresh == (last_key >= 32768) && pos == last_key % 32768 && hand == pos / 4096 && row
            == (pos / 16) % 16 && col == pos % 16) by (bit_vector)
            requires
                fresh == (last_key & 0x8000 != 0),
                pos == last_key & 0x7fff,
                hand == (pos >> 12) as u8,
                row == ((pos >> 4) & 0x0f) as u8,
                col == (pos & 0x0f) as u8,
        ;
        head.push(hand);
        head.push(row);
        head.push(col);
        head.push(if fresh {
            1
        } else {
            0
        });
        assert(head@ =~= hdr(b, ST_OK) + lastkey_payload(last_key));
    } else if cmd == CMD_REBOOT {
        head.push(ST_OK);
        reboot = true;
    } else {
        head.push(ST_UNKNOWN);
    }
    let resp = to_report(&head);
    Outcome { resp, reboot, clear_last_key }
}

/// Every command keeps the staged configuration canonical (as the set
/// functions leave it), so that what COMMIT stores reads back as staged.
pub proof fn lemma_command_keeps_canon(b: Seq<u8>, c: ConfigView, flash_ok: bool, last_key: u16)
    requires
        b.len() == REPORT_LEN,
        config_canon(c),
    ensures
        config_canon(command_of(b, c, flash_ok, last_key).staged),
{
    if b[0] == CMD_WRITE {
        let section = b[2];
        if SEC_LAYERS <= section && section <= SEC_EXTRA {
            let val_off: int = 3 + width_of(section)->0 as int;
            let key = b.subrange(3, val_off);
            if b[val_off + 1] == 0 {
                lemma_remove_canon(c, section, key);
            } else {
                lemma_dec_val_wf(b, val_off);
                if let Some((v, _)) = dec_val(b, val_off) {
                    if set_in(c, section, key, v) is Some {
                        lemma_set_canon(c, section, key, v);
                    }
                }
            }
        }
    } else if b[0] == CMD_RESET {
        lemma_default_canon();
    }
}

} // verus!
