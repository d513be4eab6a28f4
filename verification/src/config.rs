//! Intermediate representation (IR) of the configuration, shared by flash
//! storage and the PC configuration channel.
//!
//! The layout tables are the defaults; flash holds only the user's
//! differences, merged over the defaults at boot. `serialize` / `parse`
//! encode and decode the IR.
use vstd::prelude::*;
use vstd::string::*;
use vstd::utf8::*;

use crate::assoc::{assoc, first_index, has_key, lemma_first_index_unique, swap_remove_seq};
use crate::engine::{REPEAT_DELAY_MS, REPEAT_INTERVAL_MS};
use crate::layout::{TAP_MS, WINDOW_MS};

pub mod laws;
pub mod pseudo;

verus! {

/// IR magic ("NaGinata ConFig").
pub const MAGIC: [u8; 4] = [0x4e, 0x47, 0x43, 0x46];
/// IR format version (2: all categories).
pub const VERSION: u8 = 2;

/// Maximum UTF-8 byte length of one kana value.
pub const MAX_KANA_LEN: usize = 8;
/// Maximum number of keys in one key sequence value.
pub const MAX_KEYS: usize = 12;

/// Capacity of each section.
pub const MAX_LAYERS: usize = 96;
pub const MAX_COMBO2: usize = 24;
pub const MAX_COMBO3: usize = 64;
pub const MAX_MODES: usize = 32;
/// Direct assignments of unused physical keys.
pub const MAX_EXTRA: usize = 32;
/// Entries of all custom layers together.
pub const MAX_CUSTOM: usize = 96;
/// Number of custom layers (a pseudo usage keeps the layer id in three bits).
pub const MAX_CUSTOM_LAYERS: u8 = 8;

/// Value tags.
pub const TAG_KANA: u8 = 0;
pub const TAG_KEYS: u8 = 1;
/// Hold: the (usage, modifiers) pair stays pressed while the physical key
/// is held. Used by direct keys only.
pub const TAG_HOLD: u8 = 2;

/// Section ids.
pub const SEC_END: u8 = 0;
pub const SEC_LAYERS: u8 = 1;
pub const SEC_COMBO2: u8 = 2;
pub const SEC_COMBO3: u8 = 3;
pub const SEC_MODES: u8 = 4;
pub const SEC_EXTRA: u8 = 5;
pub const SEC_CUSTOM: u8 = 6;

/// Length of the parameter block (after the version, before the sections).
pub const PARAMS_LEN: usize = 11;
/// Magic, version and parameters.
pub const HEADER_LEN: usize = 16;

/// One kana value (UTF-8, at most `MAX_KANA_LEN` bytes).
pub type KanaStr = String;
/// A key sequence value ((usage, modifiers) pairs, at most `MAX_KEYS`).
pub type KeysVec = Vec<(u8, u8)>;

/// LED brightness scale default: 255 = the plain status colors.
pub const DEFAULT_LED_BRIGHTNESS: u8 = 255;

/// Flags bit 0: send LANG2 (IME off) when pass-through turns on, LANG1
/// (IME on) when it turns off.
pub const PFLAG_PASS_IME: u8 = 0x01;

/// Runtime parameters.
#[derive(Clone, Copy, Debug, PartialEq, Eq, Structural)]
pub struct Params {
    pub window_ms: u16,
    pub tap_ms: u16,
    pub repeat_delay_ms: u16,
    pub repeat_interval_ms: u16,
    pub led_brightness: u8,
    /// Behaviour flags (`PFLAG_PASS_IME`, ...).
    pub flags: u8,
}

/// The default parameters: the layout's timings and the engine's repeat
/// timing, full brightness, no flags.
pub open spec fn default_params() -> Params {
    Params {
        window_ms: WINDOW_MS as u16,
        tap_ms: TAP_MS as u16,
        repeat_delay_ms: REPEAT_DELAY_MS as u16,
        repeat_interval_ms: REPEAT_INTERVAL_MS as u16,
        led_brightness: DEFAULT_LED_BRIGHTNESS,
        flags: 0,
    }
}

impl Default for Params {
    fn default() -> (r: Self)
        ensures
            r == default_params(),
    {
        Params {
            window_ms: WINDOW_MS as u16,
            tap_ms: TAP_MS as u16,
            repeat_delay_ms: REPEAT_DELAY_MS as u16,
            repeat_interval_ms: REPEAT_INTERVAL_MS as u16,
            led_brightness: DEFAULT_LED_BRIGHTNESS,
            flags: 0,
        }
    }
}

/// An override value: kana, a key sequence, or a held key.
#[derive(Debug, PartialEq, Eq)]
pub enum OverrideVal {
    Kana(KanaStr),
    Keys(KeysVec),
    /// (usage, modifiers) kept pressed while held (`TAG_HOLD`).
    Hold((u8, u8)),
}

/// The value of an override.
pub enum Val {
    Kana(Seq<char>),
    Keys(Seq<(u8, u8)>),
    Hold((u8, u8)),
}

impl View for OverrideVal {
    type V = Val;

    open spec fn view(&self) -> Val {
        match self {
            OverrideVal::Kana(k) => Val::Kana(k@),
            OverrideVal::Keys(v) => Val::Keys(v@),
            OverrideVal::Hold(p) => Val::Hold(*p),
        }
    }
}

/// A copy of a key sequence.
fn copy_keys(v: &Vec<(u8, u8)>) -> (r: Vec<(u8, u8)>)
    ensures
        r@ == v@,
{
    let mut r: Vec<(u8, u8)> = Vec::new();
    let mut i: usize = 0;
    while i < v.len()
        invariant
            i <= v@.len(),
            r@ == v@.take(i as int),
        decreases v@.len() - i,
    {
        r.push(v[i]);
        i += 1;
        assert(r@ =~= v@.take(i as int));
    }
    assert(v@.take(v@.len() as int) =~= v@);
    r
}

impl Clone for OverrideVal {
    fn clone(&self) -> (r: Self)
        ensures
            r@ == self@,
    {
        match self {
            OverrideVal::Kana(k) => OverrideVal::Kana(k.clone()),
            OverrideVal::Keys(v) => OverrideVal::Keys(copy_keys(v)),
            OverrideVal::Hold(p) => OverrideVal::Hold(*p),
        }
    }
}

/// Entries of a section: key bytes and value.
pub type Entries = Seq<(Seq<u8>, Val)>;

/// The whole configuration: parameters and the differences of every category.
#[derive(Clone, Debug, PartialEq, Eq)]
pub struct Config {
    pub params: Params,
    /// Layer differences: (mask, sc, value).
    pub layers: Vec<(u8, u8, OverrideVal)>,
    /// Two-key chord differences: ([sc0, sc1] sorted, value).
    pub combo2: Vec<([u8; 2], OverrideVal)>,
    /// Three-key chord differences: ([sc0, sc1, sc2] sorted, value).
    pub combo3: Vec<([u8; 3], OverrideVal)>,
    /// Editing mode differences: (mode, sc, value).
    pub modes: Vec<(u8, u8, OverrideVal)>,
    /// Direct assignments of unused physical keys: (hand, row, col, value),
    /// output as taps without going through the engine.
    pub extra: Vec<(u8, u8, u8, OverrideVal)>,
    /// Custom layer differences: (layer id, sc, value); undefined scan codes
    /// fall through to pass-through.
    pub custom: Vec<(u8, u8, OverrideVal)>,
}

/// The configuration seen as parameters and sections of entries.
pub struct ConfigView {
    pub params: Params,
    pub layers: Entries,
    pub combo2: Entries,
    pub combo3: Entries,
    pub modes: Entries,
    pub extra: Entries,
    pub custom: Entries,
}

pub open spec fn view_pairs(s: Seq<(u8, u8, OverrideVal)>) -> Entries {
    s.map_values(|e: (u8, u8, OverrideVal)| (seq![e.0, e.1], e.2@))
}

pub open spec fn view_keyed2(s: Seq<([u8; 2], OverrideVal)>) -> Entries {
    s.map_values(|e: ([u8; 2], OverrideVal)| (e.0@, e.1@))
}

pub open spec fn view_keyed3(s: Seq<([u8; 3], OverrideVal)>) -> Entries {
    s.map_values(|e: ([u8; 3], OverrideVal)| (e.0@, e.1@))
}

pub open spec fn view_triples(s: Seq<(u8, u8, u8, OverrideVal)>) -> Entries {
    s.map_values(|e: (u8, u8, u8, OverrideVal)| (seq![e.0, e.1, e.2], e.3@))
}

impl View for Config {
    type V = ConfigView;

    open spec fn view(&self) -> ConfigView {
        ConfigView {
            params: self.params,
            layers: view_pairs(self.layers@),
            combo2: view_keyed2(self.combo2@),
            combo3: view_keyed3(self.combo3@),
            modes: view_pairs(self.modes@),
            extra: view_triples(self.extra@),
            custom: view_pairs(self.custom@),
        }
    }
}

/// The empty configuration with default parameters.
pub open spec fn default_config() -> ConfigView {
    ConfigView {
        params: default_params(),
        layers: Seq::empty(),
        combo2: Seq::empty(),
        combo3: Seq::empty(),
        modes: Seq::empty(),
        extra: Seq::empty(),
        custom: Seq::empty(),
    }
}

impl Default for Config {
    fn default() -> (r: Self)
        ensures
            r@ == default_config(),
    {
        let r = Config {
            params: Params::default(),
            layers: Vec::new(),
            combo2: Vec::new(),
            combo3: Vec::new(),
            modes: Vec::new(),
            extra: Vec::new(),
            custom: Vec::new(),
        };
        assert(r@.layers =~= Seq::empty());
        assert(r@.combo2 =~= Seq::empty());
        assert(r@.combo3 =~= Seq::empty());
        assert(r@.modes =~= Seq::empty());
        assert(r@.extra =~= Seq::empty());
        assert(r@.custom =~= Seq::empty());
        r
    }
}

/// Setting `key` to `v`: the first entry with the key takes the value;
/// without one, the entry is appended if the section has room, else the
/// set fails (`None`).
pub open spec fn set_entry(s: Entries, key: Seq<u8>, v: Val, cap: nat) -> Option<Entries> {
    if has_key(s, key) {
        let i = choose|i: int| first_index(s, key, i);
        Some(s.update(i, (key, v)))
    } else if s.len() < cap {
        Some(s.push((key, v)))
    } else {
        None
    }
}

/// Removing `key`: the first entry with the key is removed, the last entry
/// taking its place.
pub open spec fn remove_entry(s: Entries, key: Seq<u8>) -> Entries {
    if has_key(s, key) {
        let i = choose|i: int| first_index(s, key, i);
        swap_remove_seq(s, i)
    } else {
        s
    }
}

/// The two scan codes sorted.
pub open spec fn sort2_of(a: u8, b: u8) -> Seq<u8> {
    if a <= b {
        seq![a, b]
    } else {
        seq![b, a]
    }
}

/// The three scan codes sorted.
pub open spec fn sort3_of(a: u8, b: u8, c: u8) -> Seq<u8> {
    let lo = crate::keymap::min3(a, b, c);
    let hi = crate::keymap::max3(a, b, c);
    seq![lo, (a + b + c - lo - hi) as u8, hi]
}

fn sort2(a: u8, b: u8) -> (r: [u8; 2])
    ensures
        r@ == sort2_of(a, b),
{
    let r = if a <= b {
        [a, b]
    } else {
        [b, a]
    };
    assert(r@ =~= sort2_of(a, b));
    r
}

fn sort3(a: u8, b: u8, c: u8) -> (r: [u8; 3])
    ensures
        r@ == sort3_of(a, b, c),
{
    let mut lo = a;
    let mut mid = b;
    let mut hi = c;
    if lo > mid {
        let t = lo;
        lo = mid;
        mid = t;
    }
    if mid > hi {
        let t = mid;
        mid = hi;
        hi = t;
    }
    if lo > mid {
        let t = lo;
        lo = mid;
        mid = t;
    }
    let r = [lo, mid, hi];
    assert(r@ =~= sort3_of(a, b, c));
    r
}

/// `b` with `x` written at `off`.
pub open spec fn splice(b: Seq<u8>, off: int, x: Seq<u8>) -> Seq<u8> {
    b.subrange(0, off) + x + b.subrange(off + x.len(), b.len() as int)
}

/// Whether kana chars fit a kana value (`MAX_KANA_LEN` UTF-8 bytes).
pub open spec fn kana_fits(c: Seq<char>) -> bool {
    encode_utf8(c).len() <= MAX_KANA_LEN
}

/// Whether a value is within the bounds of its kind.
pub open spec fn val_wf(v: Val) -> bool {
    match v {
        Val::Kana(c) => kana_fits(c),
        Val::Keys(k) => k.len() <= MAX_KEYS,
        Val::Hold(_) => true,
    }
}

/// Key pairs as bytes: usage, modifiers, usage, modifiers, ...
pub open spec fn pairs_bytes(k: Seq<(u8, u8)>) -> Seq<u8> {
    Seq::new(2 * k.len(), |i: int| if i % 2 == 0 { k[i / 2].0 } else { k[i / 2].1 })
}

/// Bytes as key pairs.
pub open spec fn bytes_pairs(b: Seq<u8>) -> Seq<(u8, u8)> {
    Seq::new(b.len() / 2, |i: int| (b[2 * i], b[2 * i + 1]))
}

/// Encoding of a value: tag, payload length, payload.
pub open spec fn enc_val(v: Val) -> Seq<u8> {
    match v {
        Val::Kana(c) => seq![TAG_KANA, encode_utf8(c).len() as u8] + encode_utf8(c),
        Val::Keys(k) => seq![TAG_KEYS, (2 * k.len()) as u8] + pairs_bytes(k),
        Val::Hold(p) => seq![TAG_HOLD, 2, p.0, p.1],
    }
}

/// Decoding a value at `off`: `None` when it does not fit in `b`, has an
/// unknown tag, a kana longer than `MAX_KANA_LEN` bytes or not UTF-8, an
/// odd key payload or more than `MAX_KEYS` keys, or a hold payload other
/// than two bytes. Also returns the offset after the value.
pub open spec fn dec_val(b: Seq<u8>, off: int) -> Option<(Val, int)> {
    if off + 2 > b.len() {
        None
    } else {
        let tag = b[off];
        let len = b[off + 1] as int;
        let p = off + 2;
        if p + len > b.len() {
            None
        } else {
            let payload = b.subrange(p, p + len);
            if tag == TAG_KANA {
                if len > MAX_KANA_LEN || !valid_utf8(payload) {
                    None
                } else {
                    Some((Val::Kana(decode_utf8(payload)), p + len))
                }
            } else if tag == TAG_KEYS {
                if len % 2 != 0 || len / 2 > MAX_KEYS {
                    None
                } else {
                    Some((Val::Keys(bytes_pairs(payload)), p + len))
                }
            } else if tag == TAG_HOLD {
                if len != 2 {
                    None
                } else {
                    Some((Val::Hold((b[p], b[p + 1])), p + len))
                }
            } else {
                None
            }
        }
    }
}

/// `core::str::from_utf8`: `Some` exactly when the bytes are valid UTF-8,
/// and then the string is made of exactly these bytes.
#[verifier::external_body]
fn str_from_utf8(v: &[u8]) -> (r: Option<&str>)
    ensures
        r is Some <==> valid_utf8(v@),
        r matches Some(s) ==> s.spec_bytes() == v@,
{
    core::str::from_utf8(v).ok()
}

/// Copies `src` into `buf` at `off`.
pub(crate) fn write_bytes(buf: &mut [u8], off: usize, src: &[u8])
    requires
        off + src@.len() <= old(buf)@.len(),
    ensures
        final(buf)@ == splice(old(buf)@, off as int, src@),
{
    let blen = buf.len();
    let mut i: usize = 0;
    while i < src.len()
        invariant
            blen == buf@.len(),
            off + src@.len() <= buf@.len(),
            buf@.len() == old(buf)@.len(),
            i <= src@.len(),
            buf@ == splice(old(buf)@, off as int, src@.take(i as int)),
        decreases src@.len() - i,
    {
        buf[off + i] = src[i];
        i += 1;
        assert(buf@ =~= splice(old(buf)@, off as int, src@.take(i as int)));
    }
    assert(src@.take(src@.len() as int) =~= src@);
}

impl OverrideVal {
    /// A kana value from UTF-8 text; `Err` when longer than `MAX_KANA_LEN` bytes.
    pub fn kana(s: &str) -> (r: Result<Self, ()>)
        ensures
            r is Ok <==> kana_fits(s@),
            r matches Ok(v) ==> v@ == Val::Kana(s@),
    {
        let n = s.as_bytes().len();
        assert(n == encode_utf8(s@).len());
        if n > MAX_KANA_LEN {
            return Err(());
        }
        Ok(OverrideVal::Kana(s.to_owned()))
    }

    /// A key sequence value; `Err` with more than `MAX_KEYS` pairs.
    pub fn keys(pairs: &[(u8, u8)]) -> (r: Result<Self, ()>)
        ensures
            r is Ok <==> pairs@.len() <= MAX_KEYS,
            r matches Ok(v) ==> v@ == Val::Keys(pairs@),
    {
        if pairs.len() > MAX_KEYS {
            return Err(());
        }
        let mut v: Vec<(u8, u8)> = Vec::new();
        let mut i: usize = 0;
        while i < pairs.len()
            invariant
                i <= pairs@.len(),
                v@ == pairs@.take(i as int),
            decreases pairs@.len() - i,
        {
            v.push(pairs[i]);
            i += 1;
            assert(v@ =~= pairs@.take(i as int));
        }
        assert(pairs@.take(pairs@.len() as int) =~= pairs@);
        Ok(OverrideVal::Keys(v))
    }

    /// A held (usage, modifiers) value.
    pub fn hold(usage: u8, modifiers: u8) -> (r: Self)
        ensures
            r@ == Val::Hold((usage, modifiers)),
    {
        OverrideVal::Hold((usage, modifiers))
    }

    /// Encoded length: tag, length byte and payload.
    pub fn enc_len(&self) -> (r: usize)
        requires
            val_wf(self@),
        ensures
            r == enc_val(self@).len(),
    {
        match self {
            OverrideVal::Kana(k) => {
                let n = k.as_str().as_bytes().len();
                assert(n == encode_utf8(k@).len());
                2 + n
            },
            OverrideVal::Keys(v) => 2 + v.len() * 2,
            OverrideVal::Hold(_) => 4,
        }
    }

    /// The encoding as bytes.
    pub(crate) fn enc_bytes(&self) -> (r: Vec<u8>)
        requires
            val_wf(self@),
        ensures
            r@ == enc_val(self@),
    {
        let mut out: Vec<u8> = Vec::new();
        match self {
            OverrideVal::Kana(k) => {
                let b = k.as_str().as_bytes();
                out.push(TAG_KANA);
                out.push(b.len() as u8);
                let mut i: usize = 0;
                while i < b.len()
                    invariant
                        i <= b@.len(),
                        b@ == encode_utf8(k@),
                        out@ == seq![TAG_KANA, b@.len() as u8] + b@.take(i as int),
                    decreases b@.len() - i,
                {
                    out.push(b[i]);
                    i += 1;
                    assert(out@ =~= seq![TAG_KANA, b@.len() as u8] + b@.take(i as int));
                }
                assert(b@.take(b@.len() as int) =~= b@);
            },
            OverrideVal::Keys(v) => {
                out.push(TAG_KEYS);
                out.push((v.len() * 2) as u8);
                let mut i: usize = 0;
                while i < v.len()
                    invariant
                        i <= v@.len(),
                        v@.len() <= MAX_KEYS,
                        out@ == seq![TAG_KEYS, (2 * v@.len()) as u8] + pairs_bytes(v@.take(i as int)),
                    decreases v@.len() - i,
                {
                    let (u, m) = v[i];
                    out.push(u);
                    out.push(m);
                    i += 1;
                    assert(pairs_bytes(v@.take(i as int)) =~= pairs_bytes(v@.take(i - 1)).push(u).push(m));
                    assert(out@ =~= seq![TAG_KEYS, (2 * v@.len()) as u8] + pairs_bytes(v@.take(i as int)));
                }
                assert(v@.take(v@.len() as int) =~= v@);
            },
            OverrideVal::Hold((u, m)) => {
                out.push(TAG_HOLD);
                out.push(2);
                out.push(*u);
                out.push(*m);
                assert(out@ =~= seq![TAG_HOLD, 2, *u, *m]);
            },
        }
        out
    }

    /// Writes the encoding into `buf` at `off`; returns the offset after it.
    pub fn encode(&self, buf: &mut [u8], off: usize) -> (r: usize)
        requires
            val_wf(self@),
            off + enc_val(self@).len() <= old(buf)@.len(),
        ensures
            final(buf)@ == splice(old(buf)@, off as int, enc_val(self@)),
            r == off + enc_val(self@).len(),
    {
        let bytes = self.enc_bytes();
        let blen = buf.len();
        write_bytes(buf, off, bytes.as_slice());
        off + bytes.len()
    }

    /// Reads a value at `off`; also returns the offset after it.
    pub fn decode(buf: &[u8], off: usize) -> (r: Option<(OverrideVal, usize)>)
        ensures
            match dec_val(buf@, off as int) {
                Some((v, end)) => r matches Some((x, e)) && x@ == v && e == end,
                None => r is None,
            },
    {
        if buf.len() < 2 || off > buf.len() - 2 {
            return None;
        }
        let tag = buf[off];
        let len = buf[off + 1] as usize;
        let p = off + 2;
        if len > buf.len() - p {
            return None;
        }
        let payload = &buf[p..p + len];
        assert(payload@ == buf@.subrange(p as int, p + len));
        if tag == TAG_KANA {
            if len > MAX_KANA_LEN {
                return None;
            }
            match str_from_utf8(payload) {
                Some(s) => {
                    proof {
                        broadcast use vstd::utf8::encode_utf8_decode_utf8;
                        assert(decode_utf8(encode_utf8(s@)) == s@);
                    }
                    Some((OverrideVal::Kana(s.to_owned()), p + len))
                },
                None => None,
            }
        } else if tag == TAG_KEYS {
            if len % 2 != 0 || len / 2 > MAX_KEYS {
                return None;
            }
            let mut v: Vec<(u8, u8)> = Vec::new();
            let mut i: usize = 0;
            while i < len / 2
                invariant
                    i <= len / 2,
                    len == payload@.len(),
                    len % 2 == 0,
                    v@ == bytes_pairs(payload@).take(i as int),
                decreases len / 2 - i,
            {
                v.push((payload[2 * i], payload[2 * i + 1]));
                i += 1;
                assert(v@ =~= bytes_pairs(payload@).take(i as int));
            }
            assert(bytes_pairs(payload@).take((len / 2) as int) =~= bytes_pairs(payload@));
            Some((OverrideVal::Keys(v), p + len))
        } else if tag == TAG_HOLD {
            if len != 2 {
                return None;
            }
            Some((OverrideVal::Hold((buf[p], buf[p + 1])), p + len))
        } else {
            None
        }
    }
}


// ---------------------------------------------------------------------
// IR encoding
// ---------------------------------------------------------------------

/// Little-endian encoding of a 16-bit value.
pub open spec fn le16(v: u16) -> Seq<u8> {
    seq![(v % 256) as u8, (v / 256) as u8]
}

/// Little-endian 16-bit value at `off`.
pub open spec fn get16(b: Seq<u8>, off: int) -> u16 {
    (b[off] + 256 * b[off + 1]) as u16
}

/// Header: magic, version, parameters, one reserved zero byte.
pub open spec fn header_of(p: Params) -> Seq<u8> {
    MAGIC@ + seq![VERSION] + le16(p.window_ms) + le16(p.tap_ms) + le16(p.repeat_delay_ms) + le16(
        p.repeat_interval_ms,
    ) + seq![p.led_brightness, p.flags, 0]
}

/// Entries: key bytes then value, one after the other.
pub open spec fn enc_entries(s: Entries) -> Seq<u8>
    decreases s.len(),
{
    if s.len() == 0 {
        Seq::empty()
    } else {
        enc_entries(s.drop_last()) + s.last().0 + enc_val(s.last().1)
    }
}

/// Section: id, entry count (16 bits), entries.
pub open spec fn enc_section(id: u8, s: Entries) -> Seq<u8> {
    seq![id] + le16(s.len() as u16) + enc_entries(s)
}

/// Everything the checksum covers: header, the sections in order (custom
/// layers only when there are any, so that such configurations keep the
/// earlier layout), end marker.
pub open spec fn body_of(c: ConfigView) -> Seq<u8> {
    header_of(c.params) + enc_section(SEC_LAYERS, c.layers) + enc_section(SEC_COMBO2, c.combo2)
        + enc_section(SEC_COMBO3, c.combo3) + enc_section(SEC_MODES, c.modes) + enc_section(
        SEC_EXTRA,
        c.extra,
    ) + (if c.custom.len() > 0 {
        enc_section(SEC_CUSTOM, c.custom)
    } else {
        Seq::empty()
    }) + seq![SEC_END]
}

/// One step of CRC-16/CCITT-FALSE (polynomial 0x1021).
pub open spec fn crc_step(c: u16) -> u16 {
    if c & 0x8000 != 0 {
        (c << 1) ^ 0x1021
    } else {
        c << 1
    }
}

pub open spec fn crc_steps(c: u16, n: nat) -> u16
    decreases n,
{
    if n == 0 {
        c
    } else {
        crc_steps(crc_step(c), (n - 1) as nat)
    }
}

pub open spec fn crc_byte(c: u16, b: u8) -> u16 {
    crc_steps(c ^ ((b as u16) << 8), 8)
}

/// CRC-16/CCITT-FALSE (init 0xFFFF) of `data`.
pub open spec fn crc16_of(data: Seq<u8>) -> u16
    decreases data.len(),
{
    if data.len() == 0 {
        0xFFFF
    } else {
        crc_byte(crc16_of(data.drop_last()), data.last())
    }
}

/// The IR of a configuration: body and its checksum.
pub open spec fn serialize_of(c: ConfigView) -> Seq<u8> {
    body_of(c) + le16(crc16_of(body_of(c)))
}

/// Whether every section is within its capacity and every value within
/// the bounds of its kind (what the types of the sections guarantee).
pub open spec fn config_wf(c: ConfigView) -> bool {
    &&& c.layers.len() <= MAX_LAYERS
    &&& c.combo2.len() <= MAX_COMBO2
    &&& c.combo3.len() <= MAX_COMBO3
    &&& c.modes.len() <= MAX_MODES
    &&& c.extra.len() <= MAX_EXTRA
    &&& c.custom.len() <= MAX_CUSTOM
    &&& entries_wf(c.layers)
    &&& entries_wf(c.combo2)
    &&& entries_wf(c.combo3)
    &&& entries_wf(c.modes)
    &&& entries_wf(c.extra)
    &&& entries_wf(c.custom)
}

pub open spec fn entries_wf(s: Entries) -> bool {
    forall|i: int| 0 <= i < s.len() ==> #[trigger] val_wf(s[i].1)
}

fn crc_byte_exec(c: u16, b: u8) -> (r: u16)
    ensures
        r == crc_byte(c, b),
{
    let mut crc: u16 = c ^ ((b as u16) << 8);
    let ghost start = crc;
    let mut j: usize = 0;
    while j < 8
        invariant
            j <= 8,
            crc_steps(start, 8) == crc_steps(crc, (8 - j) as nat),
        decreases 8 - j,
    {
        crc = if crc & 0x8000 != 0 {
            (crc << 1) ^ 0x1021
        } else {
            crc << 1
        };
        j += 1;
    }
    crc
}

/// CRC-16/CCITT-FALSE of `data`.
fn crc16(data: &[u8]) -> (r: u16)
    ensures
        r == crc16_of(data@),
{
    let mut crc: u16 = 0xFFFF;
    let mut i: usize = 0;
    while i < data.len()
        invariant
            i <= data@.len(),
            crc == crc16_of(data@.take(i as int)),
        decreases data@.len() - i,
    {
        assert(data@.take(i + 1).drop_last() =~= data@.take(i as int));
        crc = crc_byte_exec(crc, data[i]);
        i += 1;
    }
    assert(data@.take(data@.len() as int) =~= data@);
    crc
}

fn push_u16(out: &mut Vec<u8>, v: u16)
    ensures
        final(out)@ == old(out)@ + le16(v),
{
    let lo: u8 = (v & 0xff) as u8;
    let hi: u8 = (v >> 8) as u8;
    assert(lo == v % 256 && hi == v / 256) by (bit_vector)
        requires
            lo == (v & 0xff) as u8,
            hi == (v >> 8) as u8,
    ;
    out.push(lo);
    out.push(hi);
    assert(out@ =~= old(out)@ + le16(v));
}

fn push_all(out: &mut Vec<u8>, b: &Vec<u8>)
    ensures
        final(out)@ == old(out)@ + b@,
{
    let mut i: usize = 0;
    while i < b.len()
        invariant
            i <= b@.len(),
            out@ == old(out)@ + b@.take(i as int),
        decreases b@.len() - i,
    {
        out.push(b[i]);
        i += 1;
        assert(out@ =~= old(out)@ + b@.take(i as int));
    }
    assert(b@.take(b@.len() as int) =~= b@);
}

proof fn lemma_enc_entries_step(s: Entries, i: int)
    requires
        0 <= i < s.len(),
    ensures
        enc_entries(s.take(i + 1)) == enc_entries(s.take(i)) + s[i].0 + enc_val(s[i].1),
{
    assert(s.take(i + 1).drop_last() =~= s.take(i));
}

fn push_section_pairs(out: &mut Vec<u8>, id: u8, list: &Vec<(u8, u8, OverrideVal)>)
    requires
        list@.len() <= 0xffff,
        entries_wf(view_pairs(list@)),
    ensures
        final(out)@ == old(out)@ + enc_section(id, view_pairs(list@)),
{
    let ghost s = view_pairs(list@);
    out.push(id);
    push_u16(out, list.len() as u16);
    let ghost start = out@;
    let mut i: usize = 0;
    while i < list.len()
        invariant
            i <= list@.len(),
            s == view_pairs(list@),
            entries_wf(s),
            out@ == start + enc_entries(s.take(i as int)),
        decreases list@.len() - i,
    {
        proof {
            lemma_enc_entries_step(s, i as int);
            assert(val_wf(s[i as int].1));
        }
        let e = &list[i];
        out.push(e.0);
        out.push(e.1);
        let b = e.2.enc_bytes();
        push_all(out, &b);
        i += 1;
        assert(out@ =~= start + enc_entries(s.take(i as int)));
    }
    assert(s.take(list@.len() as int) =~= s);
    assert(out@ =~= old(out)@ + enc_section(id, s));
}

fn push_section_keyed2(out: &mut Vec<u8>, id: u8, list: &Vec<([u8; 2], OverrideVal)>)
    requires
        list@.len() <= 0xffff,
        entries_wf(view_keyed2(list@)),
    ensures
        final(out)@ == old(out)@ + enc_section(id, view_keyed2(list@)),
{
    let ghost s = view_keyed2(list@);
    out.push(id);
    push_u16(out, list.len() as u16);
    let ghost start = out@;
    let mut i: usize = 0;
    while i < list.len()
        invariant
            i <= list@.len(),
            s == view_keyed2(list@),
            entries_wf(s),
            out@ == start + enc_entries(s.take(i as int)),
        decreases list@.len() - i,
    {
        proof {
            lemma_enc_entries_step(s, i as int);
            assert(val_wf(s[i as int].1));
        }
        let e = &list[i];
        out.push(e.0[0]);
        out.push(e.0[1]);
        let b = e.1.enc_bytes();
        push_all(out, &b);
        i += 1;
        assert(out@ =~= start + enc_entries(s.take(i as int)));
    }
    assert(s.take(list@.len() as int) =~= s);
    assert(out@ =~= old(out)@ + enc_section(id, s));
}

fn push_section_keyed3(out: &mut Vec<u8>, id: u8, list: &Vec<([u8; 3], OverrideVal)>)
    requires
        list@.len() <= 0xffff,
        entries_wf(view_keyed3(list@)),
    ensures
        final(out)@ == old(out)@ + enc_section(id, view_keyed3(list@)),
{
    let ghost s = view_keyed3(list@);
    out.push(id);
    push_u16(out, list.len() as u16);
    let ghost start = out@;
    let mut i: usize = 0;
    while i < list.len()
        invariant
            i <= list@.len(),
            s == view_keyed3(list@),
            entries_wf(s),
            out@ == start + enc_entries(s.take(i as int)),
        decreases list@.len() - i,
    {
        proof {
            lemma_enc_entries_step(s, i as int);
            assert(val_wf(s[i as int].1));
        }
        let e = &list[i];
        out.push(e.0[0]);
        out.push(e.0[1]);
        out.push(e.0[2]);
        let b = e.1.enc_bytes();
        push_all(out, &b);
        i += 1;
        assert(out@ =~= start + enc_entries(s.take(i as int)));
    }
    assert(s.take(list@.len() as int) =~= s);
    assert(out@ =~= old(out)@ + enc_section(id, s));
}

fn push_section_triples(out: &mut Vec<u8>, id: u8, list: &Vec<(u8, u8, u8, OverrideVal)>)
    requires
        list@.len() <= 0xffff,
        entries_wf(view_triples(list@)),
    ensures
        final(out)@ == old(out)@ + enc_section(id, view_triples(list@)),
{
    let ghost s = view_triples(list@);
    out.push(id);
    push_u16(out, list.len() as u16);
    let ghost start = out@;
    let mut i: usize = 0;
    while i < list.len()
        invariant
            i <= list@.len(),
            s == view_triples(list@),
            entries_wf(s),
            out@ == start + enc_entries(s.take(i as int)),
        decreases list@.len() - i,
    {
        proof {
            lemma_enc_entries_step(s, i as int);
            assert(val_wf(s[i as int].1));
        }
        let e = &list[i];
        out.push(e.0);
        out.push(e.1);
        out.push(e.2);
        let b = e.3.enc_bytes();
        push_all(out, &b);
        i += 1;
        assert(out@ =~= start + enc_entries(s.take(i as int)));
    }
    assert(s.take(list@.len() as int) =~= s);
    assert(out@ =~= old(out)@ + enc_section(id, s));
}

/// Writes the IR of `cfg` at the start of `buf` and returns its length;
/// `None` (and `buf` untouched) when `buf` is shorter than the IR.
pub fn serialize(cfg: &Config, buf: &mut [u8]) -> (r: Option<usize>)
    requires
        config_wf(cfg@),
    ensures
        old(buf)@.len() < serialize_of(cfg@).len() ==> r is None && final(buf)@ == old(buf)@,
        old(buf)@.len() >= serialize_of(cfg@).len() ==> r == Some(serialize_of(cfg@).len() as usize)
            && final(buf)@ == splice(old(buf)@, 0, serialize_of(cfg@)),
{
    let ghost c = cfg@;
    let mut out: Vec<u8> = Vec::new();
    out.push(MAGIC[0]);
    out.push(MAGIC[1]);
    out.push(MAGIC[2]);
    out.push(MAGIC[3]);
    out.push(VERSION);
    let p = &cfg.params;
    push_u16(&mut out, p.window_ms);
    push_u16(&mut out, p.tap_ms);
    push_u16(&mut out, p.repeat_delay_ms);
    push_u16(&mut out, p.repeat_interval_ms);
    out.push(p.led_brightness);
    out.push(p.flags);
    out.push(0);
    assert(out@ =~= header_of(c.params));
    push_section_pairs(&mut out, SEC_LAYERS, &cfg.layers);
    push_section_keyed2(&mut out, SEC_COMBO2, &cfg.combo2);
    push_section_keyed3(&mut out, SEC_COMBO3, &cfg.combo3);
    push_section_pairs(&mut out, SEC_MODES, &cfg.modes);
    push_section_triples(&mut out, SEC_EXTRA, &cfg.extra);
    let ghost before_custom = out@;
    if cfg.custom.len() > 0 {
        push_section_pairs(&mut out, SEC_CUSTOM, &cfg.custom);
    }
    assert(out@ =~= before_custom + (if c.custom.len() > 0 {
        enc_section(SEC_CUSTOM, c.custom)
    } else {
        Seq::empty()
    }));
    out.push(SEC_END);
    assert(out@ =~= body_of(c));
    let crc = crc16(out.as_slice());
    push_u16(&mut out, crc);
    assert(out@ =~= serialize_of(c));
    if buf.len() < out.len() {
        return None;
    }
    write_bytes(buf, 0, out.as_slice());
    Some(out.len())
}

/// The entries of section `sec`.
pub open spec fn section_of(c: ConfigView, sec: u8) -> Entries {
    if sec == SEC_LAYERS {
        c.layers
    } else if sec == SEC_COMBO2 {
        c.combo2
    } else if sec == SEC_COMBO3 {
        c.combo3
    } else if sec == SEC_MODES {
        c.modes
    } else if sec == SEC_EXTRA {
        c.extra
    } else {
        c.custom
    }
}

/// `c` with the entries of section `sec` replaced by `e`.
pub open spec fn with_section(c: ConfigView, sec: u8, e: Entries) -> ConfigView {
    if sec == SEC_LAYERS {
        ConfigView { layers: e, ..c }
    } else if sec == SEC_COMBO2 {
        ConfigView { combo2: e, ..c }
    } else if sec == SEC_COMBO3 {
        ConfigView { combo3: e, ..c }
    } else if sec == SEC_MODES {
        ConfigView { modes: e, ..c }
    } else if sec == SEC_EXTRA {
        ConfigView { extra: e, ..c }
    } else {
        ConfigView { custom: e, ..c }
    }
}

/// Capacity of section `sec`.
pub open spec fn cap_of(sec: u8) -> nat {
    if sec == SEC_LAYERS {
        MAX_LAYERS as nat
    } else if sec == SEC_COMBO2 {
        MAX_COMBO2 as nat
    } else if sec == SEC_COMBO3 {
        MAX_COMBO3 as nat
    } else if sec == SEC_MODES {
        MAX_MODES as nat
    } else if sec == SEC_EXTRA {
        MAX_EXTRA as nat
    } else {
        MAX_CUSTOM as nat
    }
}

/// Number of key bytes of an entry of section `sec` (`None`: no such section).
pub open spec fn width_of(sec: u8) -> Option<nat> {
    if sec == SEC_LAYERS || sec == SEC_COMBO2 || sec == SEC_MODES || sec == SEC_CUSTOM {
        Some(2)
    } else if sec == SEC_COMBO3 || sec == SEC_EXTRA {
        Some(3)
    } else {
        None
    }
}

/// The stored form of a key: chord keys are sorted.
pub open spec fn normalize_key(sec: u8, key: Seq<u8>) -> Seq<u8> {
    if sec == SEC_COMBO2 {
        sort2_of(key[0], key[1])
    } else if sec == SEC_COMBO3 {
        sort3_of(key[0], key[1], key[2])
    } else {
        key
    }
}

/// The value stored under `key` in section `sec`.
pub open spec fn find_in(c: ConfigView, sec: u8, key: Seq<u8>) -> Option<Val> {
    assoc(section_of(c, sec), normalize_key(sec, key))
}

/// Setting `key` of section `sec` to `v`; `None` when the section is full,
/// or for a custom layer id of `MAX_CUSTOM_LAYERS` or more.
pub open spec fn set_in(c: ConfigView, sec: u8, key: Seq<u8>, v: Val) -> Option<ConfigView> {
    if sec == SEC_CUSTOM && key[0] >= MAX_CUSTOM_LAYERS {
        None
    } else {
        match set_entry(section_of(c, sec), normalize_key(sec, key), v, cap_of(sec)) {
            Some(e) => Some(with_section(c, sec, e)),
            None => None,
        }
    }
}

/// Removing `key` from section `sec`.
pub open spec fn remove_in(c: ConfigView, sec: u8, key: Seq<u8>) -> ConfigView {
    with_section(c, sec, remove_entry(section_of(c, sec), normalize_key(sec, key)))
}

/// The result of a set: `Ok` with the new configuration, or `Err` with the
/// configuration unchanged.
pub open spec fn set_done(old: ConfigView, new: ConfigView, r: Result<(), ()>, expected: Option<ConfigView>) -> bool {
    match expected {
        Some(c) => r is Ok && new == c,
        None => r is Err && new == old,
    }
}

/// The lookup result of a borrowed value against the view.
pub open spec fn found(r: Option<&OverrideVal>, expected: Option<Val>) -> bool {
    match r {
        Some(v) => expected == Some(v@),
        None => expected is None,
    }
}

/// Where `key` first occurs in a section, if it does.
pub open spec fn index_of_key(s: Entries, key: Seq<u8>, r: Option<usize>) -> bool {
    match r {
        Some(i) => first_index(s, key, i as int),
        None => !has_key(s, key),
    }
}

proof fn lemma_no_index(s: Entries, key: Seq<u8>, n: int)
    requires
        n == s.len(),
        forall|j: int| 0 <= j < n ==> #[trigger] s[j].0 != key,
    ensures
        !has_key(s, key),
{
}

fn position_pairs(v: &Vec<(u8, u8, OverrideVal)>, a: u8, b: u8) -> (r: Option<usize>)
    ensures
        index_of_key(view_pairs(v@), seq![a, b], r),
{
    let ghost key = seq![a, b];
    let mut i: usize = 0;
    while i < v.len()
        invariant
            i <= v@.len(),
            key == seq![a, b],
            forall|j: int| 0 <= j < i ==> #[trigger] view_pairs(v@)[j].0 != key,
        decreases v@.len() - i,
    {
        if v[i].0 == a && v[i].1 == b {
            assert(view_pairs(v@)[i as int].0 =~= key);
            return Some(i);
        }
        assert(view_pairs(v@)[i as int].0[0] != a || view_pairs(v@)[i as int].0[1] != b);
        i += 1;
    }
    proof {
        lemma_no_index(view_pairs(v@), key, v@.len() as int);
    }
    None
}

fn position_keyed2(v: &Vec<([u8; 2], OverrideVal)>, k: [u8; 2]) -> (r: Option<usize>)
    ensures
        index_of_key(view_keyed2(v@), k@, r),
{
    let mut i: usize = 0;
    while i < v.len()
        invariant
            i <= v@.len(),
            forall|j: int| 0 <= j < i ==> #[trigger] view_keyed2(v@)[j].0 != k@,
        decreases v@.len() - i,
    {
        if v[i].0[0] == k[0] && v[i].0[1] == k[1] {
            assert(view_keyed2(v@)[i as int].0 =~= k@);
            return Some(i);
        }
        i += 1;
    }
    proof {
        lemma_no_index(view_keyed2(v@), k@, v@.len() as int);
    }
    None
}

fn position_keyed3(v: &Vec<([u8; 3], OverrideVal)>, k: [u8; 3]) -> (r: Option<usize>)
    ensures
        index_of_key(view_keyed3(v@), k@, r),
{
    let mut i: usize = 0;
    while i < v.len()
        invariant
            i <= v@.len(),
            forall|j: int| 0 <= j < i ==> #[trigger] view_keyed3(v@)[j].0 != k@,
        decreases v@.len() - i,
    {
        if v[i].0[0] == k[0] && v[i].0[1] == k[1] && v[i].0[2] == k[2] {
            assert(view_keyed3(v@)[i as int].0 =~= k@);
            return Some(i);
        }
        i += 1;
    }
    proof {
        lemma_no_index(view_keyed3(v@), k@, v@.len() as int);
    }
    None
}

fn position_triples(v: &Vec<(u8, u8, u8, OverrideVal)>, a: u8, b: u8, c: u8) -> (r: Option<usize>)
    ensures
        index_of_key(view_triples(v@), seq![a, b, c], r),
{
    let ghost key = seq![a, b, c];
    let mut i: usize = 0;
    while i < v.len()
        invariant
            i <= v@.len(),
            key == seq![a, b, c],
            forall|j: int| 0 <= j < i ==> #[trigger] view_triples(v@)[j].0 != key,
        decreases v@.len() - i,
    {
        if v[i].0 == a && v[i].1 == b && v[i].2 == c {
            assert(view_triples(v@)[i as int].0 =~= key);
            return Some(i);
        }
        assert(view_triples(v@)[i as int].0[0] != a || view_triples(v@)[i as int].0[1] != b
            || view_triples(v@)[i as int].0[2] != c);
        i += 1;
    }
    proof {
        lemma_no_index(view_triples(v@), key, v@.len() as int);
    }
    None
}

/// With the index of a key, the spec's chosen index is that index.
proof fn lemma_chosen(s: Entries, key: Seq<u8>, i: int)
    requires
        first_index(s, key, i),
    ensures
        has_key(s, key),
        (choose|j: int| first_index(s, key, j)) == i,
        assoc(s, key) == Some(s[i].1),
{
    let j = choose|j: int| first_index(s, key, j);
    lemma_first_index_unique(s, key, i, j);
    crate::assoc::lemma_assoc_at(s, key, i);
}

proof fn lemma_absent(s: Entries, key: Seq<u8>)
    requires
        !has_key(s, key),
    ensures
        assoc(s, key) is None,
{
    crate::assoc::lemma_assoc_some(s, key);
}

impl Config {
    pub fn find_layer(&self, mask: u8, sc: u8) -> (r: Option<&OverrideVal>)
        ensures
            found(r, find_in(self@, SEC_LAYERS, seq![mask, sc])),
    {
        match position_pairs(&self.layers, mask, sc) {
            Some(i) => {
                proof {
                    lemma_chosen(self@.layers, seq![mask, sc], i as int);
                }
                Some(&self.layers[i].2)
            },
            None => {
                proof {
                    lemma_absent(self@.layers, seq![mask, sc]);
                }
                None
            },
        }
    }

    pub fn set_layer(&mut self, mask: u8, sc: u8, val: OverrideVal) -> (r: Result<(), ()>)
        ensures
            set_done(old(self)@, final(self)@, r, set_in(old(self)@, SEC_LAYERS, seq![mask, sc], val@)),
    {
        let ghost key = seq![mask, sc];
        match position_pairs(&self.layers, mask, sc) {
            Some(i) => {
                proof {
                    lemma_chosen(self@.layers, key, i as int);
                }
                let ghost v = val@;
                self.layers.set(i, (mask, sc, val));
                assert(self@.layers =~= old(self)@.layers.update(i as int, (key, v)));
                Ok(())
            },
            None => {
                if self.layers.len() < MAX_LAYERS {
                    let ghost v = val@;
                    self.layers.push((mask, sc, val));
                    assert(self@.layers =~= old(self)@.layers.push((key, v)));
                    Ok(())
                } else {
                    Err(())
                }
            },
        }
    }

    pub fn remove_layer(&mut self, mask: u8, sc: u8)
        ensures
            final(self)@ == remove_in(old(self)@, SEC_LAYERS, seq![mask, sc]),
    {
        let ghost key = seq![mask, sc];
        if let Some(i) = position_pairs(&self.layers, mask, sc) {
            proof {
                lemma_chosen(self@.layers, key, i as int);
            }
            let _ = self.layers.swap_remove(i);
            assert(self@.layers =~= swap_remove_seq(old(self)@.layers, i as int));
        }
    }

    pub fn find_combo2(&self, a: u8, b: u8) -> (r: Option<&OverrideVal>)
        ensures
            found(r, find_in(self@, SEC_COMBO2, seq![a, b])),
    {
        let k = sort2(a, b);
        assert(normalize_key(SEC_COMBO2, seq![a, b]) == sort2_of(a, b));
        match position_keyed2(&self.combo2, k) {
            Some(i) => {
                proof {
                    lemma_chosen(self@.combo2, k@, i as int);
                }
                Some(&self.combo2[i].1)
            },
            None => {
                proof {
                    lemma_absent(self@.combo2, k@);
                }
                None
            },
        }
    }

    pub fn set_combo2(&mut self, a: u8, b: u8, val: OverrideVal) -> (r: Result<(), ()>)
        ensures
            set_done(old(self)@, final(self)@, r, set_in(old(self)@, SEC_COMBO2, seq![a, b], val@)),
    {
        let k = sort2(a, b);
        assert(normalize_key(SEC_COMBO2, seq![a, b]) == sort2_of(a, b));
        match position_keyed2(&self.combo2, k) {
            Some(i) => {
                proof {
                    lemma_chosen(self@.combo2, k@, i as int);
                }
                let ghost v = val@;
                self.combo2.set(i, (k, val));
                assert(self@.combo2 =~= old(self)@.combo2.update(i as int, (k@, v)));
                Ok(())
            },
            None => {
                if self.combo2.len() < MAX_COMBO2 {
                    let ghost v = val@;
                    self.combo2.push((k, val));
                    assert(self@.combo2 =~= old(self)@.combo2.push((k@, v)));
                    Ok(())
                } else {
                    Err(())
                }
            },
        }
    }

    pub fn remove_combo2(&mut self, a: u8, b: u8)
        ensures
            final(self)@ == remove_in(old(self)@, SEC_COMBO2, seq![a, b]),
    {
        let k = sort2(a, b);
        assert(normalize_key(SEC_COMBO2, seq![a, b]) == sort2_of(a, b));
        if let Some(i) = position_keyed2(&self.combo2, k) {
            proof {
                lemma_chosen(self@.combo2, k@, i as int);
            }
            let _ = self.combo2.swap_remove(i);
            assert(self@.combo2 =~= swap_remove_seq(old(self)@.combo2, i as int));
        }
    }

    pub fn find_combo3(&self, a: u8, b: u8, c: u8) -> (r: Option<&OverrideVal>)
        ensures
            found(r, find_in(self@, SEC_COMBO3, seq![a, b, c])),
    {
        let k = sort3(a, b, c);
        assert(normalize_key(SEC_COMBO3, seq![a, b, c]) == sort3_of(a, b, c));
        match position_keyed3(&self.combo3, k) {
            Some(i) => {
                proof {
                    lemma_chosen(self@.combo3, k@, i as int);
                }
                Some(&self.combo3[i].1)
            },
            None => {
                proof {
                    lemma_absent(self@.combo3, k@);
                }
                None
            },
        }
    }

    pub fn set_combo3(&mut self, a: u8, b: u8, c: u8, val: OverrideVal) -> (r: Result<(), ()>)
        ensures
            set_done(old(self)@, final(self)@, r, set_in(old(self)@, SEC_COMBO3, seq![a, b, c], val@)),
    {
        let k = sort3(a, b, c);
        assert(normalize_key(SEC_COMBO3, seq![a, b, c]) == sort3_of(a, b, c));
        match position_keyed3(&self.combo3, k) {
            Some(i) => {
                proof {
                    lemma_chosen(self@.combo3, k@, i as int);
                }
                let ghost v = val@;
                self.combo3.set(i, (k, val));
                assert(self@.combo3 =~= old(self)@.combo3.update(i as int, (k@, v)));
                Ok(())
            },
            None => {
                if self.combo3.len() < MAX_COMBO3 {
                    let ghost v = val@;
                    self.combo3.push((k, val));
                    assert(self@.combo3 =~= old(self)@.combo3.push((k@, v)));
                    Ok(())
                } else {
                    Err(())
                }
            },
        }
    }

    pub fn remove_combo3(&mut self, a: u8, b: u8, c: u8)
        ensures
            final(self)@ == remove_in(old(self)@, SEC_COMBO3, seq![a, b, c]),
    {
        let k = sort3(a, b, c);
        assert(normalize_key(SEC_COMBO3, seq![a, b, c]) == sort3_of(a, b, c));
        if let Some(i) = position_keyed3(&self.combo3, k) {
            proof {
                lemma_chosen(self@.combo3, k@, i as int);
            }
            let _ = self.combo3.swap_remove(i);
            assert(self@.combo3 =~= swap_remove_seq(old(self)@.combo3, i as int));
        }
    }

    pub fn find_mode(&self, mode: u8, sc: u8) -> (r: Option<&OverrideVal>)
        ensures
            found(r, find_in(self@, SEC_MODES, seq![mode, sc])),
    {
        match position_pairs(&self.modes, mode, sc) {
            Some(i) => {
                proof {
                    lemma_chosen(self@.modes, seq![mode, sc], i as int);
                }
                Some(&self.modes[i].2)
            },
            None => {
                proof {
                    lemma_absent(self@.modes, seq![mode, sc]);
                }
                None
            },
        }
    }

    pub fn set_mode(&mut self, mode: u8, sc: u8, val: OverrideVal) -> (r: Result<(), ()>)
        ensures
            set_done(old(self)@, final(self)@, r, set_in(old(self)@, SEC_MODES, seq![mode, sc], val@)),
    {
        let ghost key = seq![mode, sc];
        match position_pairs(&self.modes, mode, sc) {
            Some(i) => {
                proof {
                    lemma_chosen(self@.modes, key, i as int);
                }
                let ghost v = val@;
                self.modes.set(i, (mode, sc, val));
                assert(self@.modes =~= old(self)@.modes.update(i as int, (key, v)));
                Ok(())
            },
            None => {
                if self.modes.len() < MAX_MODES {
                    let ghost v = val@;
                    self.modes.push((mode, sc, val));
                    assert(self@.modes =~= old(self)@.modes.push((key, v)));
                    Ok(())
                } else {
                    Err(())
                }
            },
        }
    }

    pub fn remove_mode(&mut self, mode: u8, sc: u8)
        ensures
            final(self)@ == remove_in(old(self)@, SEC_MODES, seq![mode, sc]),
    {
        let ghost key = seq![mode, sc];
        if let Some(i) = position_pairs(&self.modes, mode, sc) {
            proof {
                lemma_chosen(self@.modes, key, i as int);
            }
            let _ = self.modes.swap_remove(i);
            assert(self@.modes =~= swap_remove_seq(old(self)@.modes, i as int));
        }
    }

    pub fn find_extra(&self, hand: u8, row: u8, col: u8) -> (r: Option<&OverrideVal>)
        ensures
            found(r, find_in(self@, SEC_EXTRA, seq![hand, row, col])),
    {
        match position_triples(&self.extra, hand, row, col) {
            Some(i) => {
                proof {
                    lemma_chosen(self@.extra, seq![hand, row, col], i as int);
                }
                Some(&self.extra[i].3)
            },
            None => {
                proof {
                    lemma_absent(self@.extra, seq![hand, row, col]);
                }
                None
            },
        }
    }

    pub fn set_extra(&mut self, hand: u8, row: u8, col: u8, val: OverrideVal) -> (r: Result<(), ()>)
        ensures
            set_done(old(self)@, final(self)@, r, set_in(old(self)@, SEC_EXTRA, seq![hand, row, col], val@)),
    {
        let ghost key = seq![hand, row, col];
        match position_triples(&self.extra, hand, row, col) {
            Some(i) => {
                proof {
                    lemma_chosen(self@.extra, key, i as int);
                }
                let ghost v = val@;
                self.extra.set(i, (hand, row, col, val));
                assert(self@.extra =~= old(self)@.extra.update(i as int, (key, v)));
                Ok(())
            },
            None => {
                if self.extra.len() < MAX_EXTRA {
                    let ghost v = val@;
                    self.extra.push((hand, row, col, val));
                    assert(self@.extra =~= old(self)@.extra.push((key, v)));
                    Ok(())
                } else {
                    Err(())
                }
            },
        }
    }

    pub fn remove_extra(&mut self, hand: u8, row: u8, col: u8)
        ensures
            final(self)@ == remove_in(old(self)@, SEC_EXTRA, seq![hand, row, col]),
    {
        let ghost key = seq![hand, row, col];
        if let Some(i) = position_triples(&self.extra, hand, row, col) {
            proof {
                lemma_chosen(self@.extra, key, i as int);
            }
            let _ = self.extra.swap_remove(i);
            assert(self@.extra =~= swap_remove_seq(old(self)@.extra, i as int));
        }
    }

    pub fn find_custom(&self, layer: u8, sc: u8) -> (r: Option<&OverrideVal>)
        ensures
            found(r, find_in(self@, SEC_CUSTOM, seq![layer, sc])),
    {
        match position_pairs(&self.custom, layer, sc) {
            Some(i) => {
                proof {
                    lemma_chosen(self@.custom, seq![layer, sc], i as int);
                }
                Some(&self.custom[i].2)
            },
            None => {
                proof {
                    lemma_absent(self@.custom, seq![layer, sc]);
                }
                None
            },
        }
    }

    pub fn set_custom(&mut self, layer: u8, sc: u8, val: OverrideVal) -> (r: Result<(), ()>)
        ensures
            set_done(old(self)@, final(self)@, r, set_in(old(self)@, SEC_CUSTOM, seq![layer, sc], val@)),
    {
        if layer >= MAX_CUSTOM_LAYERS {
            return Err(());
        }
        let ghost key = seq![layer, sc];
        match position_pairs(&self.custom, layer, sc) {
            Some(i) => {
                proof {
                    lemma_chosen(self@.custom, key, i as int);
                }
                let ghost v = val@;
                self.custom.set(i, (layer, sc, val));
                assert(self@.custom =~= old(self)@.custom.update(i as int, (key, v)));
                Ok(())
            },
            None => {
                if self.custom.len() < MAX_CUSTOM {
                    let ghost v = val@;
                    self.custom.push((layer, sc, val));
                    assert(self@.custom =~= old(self)@.custom.push((key, v)));
                    Ok(())
                } else {
                    Err(())
                }
            },
        }
    }

    pub fn remove_custom(&mut self, layer: u8, sc: u8)
        ensures
            final(self)@ == remove_in(old(self)@, SEC_CUSTOM, seq![layer, sc]),
    {
        let ghost key = seq![layer, sc];
        if let Some(i) = position_pairs(&self.custom, layer, sc) {
            proof {
                lemma_chosen(self@.custom, key, i as int);
            }
            let _ = self.custom.swap_remove(i);
            assert(self@.custom =~= swap_remove_seq(old(self)@.custom, i as int));
        }
    }
}


// ---------------------------------------------------------------------
// IR decoding
// ---------------------------------------------------------------------

/// The parameters stored in a header.
pub open spec fn params_of(b: Seq<u8>) -> Params {
    Params {
        window_ms: get16(b, 5),
        tap_ms: get16(b, 7),
        repeat_delay_ms: get16(b, 9),
        repeat_interval_ms: get16(b, 11),
        led_brightness: b[13],
        flags: b[14],
    }
}

/// A configuration with parameters `p` and no differences.
pub open spec fn empty_config(p: Params) -> ConfigView {
    ConfigView {
        params: p,
        layers: Seq::empty(),
        combo2: Seq::empty(),
        combo3: Seq::empty(),
        modes: Seq::empty(),
        extra: Seq::empty(),
        custom: Seq::empty(),
    }
}

/// Reading one entry of section `sec` at `off` into `c`, set as `set_in`
/// does: the configuration and the offset after the entry, or `None` for
/// an entry that does not fit, a value that does not decode, a set that
/// fails, or an unknown section.
pub open spec fn entry_of(b: Seq<u8>, off: int, sec: u8, c: ConfigView) -> Option<(ConfigView, int)> {
    match width_of(sec) {
        None => None,
        Some(w) => if off + w > b.len() {
            None
        } else {
            match dec_val(b, off + w) {
                None => None,
                Some((v, next)) => match set_in(c, sec, b.subrange(off, off + w), v) {
                    None => None,
                    Some(c2) => Some((c2, next)),
                },
            }
        },
    }
}

/// Reading `n` entries of section `sec` at `off` into `c`.
pub open spec fn parse_entries(b: Seq<u8>, off: int, sec: u8, n: nat, c: ConfigView) -> Option<(ConfigView, int)>
    decreases n,
{
    if n == 0 {
        Some((c, off))
    } else {
        match entry_of(b, off, sec, c) {
            None => None,
            Some((c2, next)) => parse_entries(b, next, sec, (n - 1) as nat, c2),
        }
    }
}

/// Reading sections at `off` up to the end marker: the configuration and
/// the offset after the marker. A section is its id, its entry count (16
/// bits) and its entries.
pub open spec fn parse_sections(b: Seq<u8>, off: int, c: ConfigView) -> Option<(ConfigView, int)>
    decreases b.len() - off,
{
    if off < 0 || off >= b.len() {
        None
    } else if b[off] == SEC_END {
        Some((c, off + 1))
    } else if off + 3 > b.len() {
        None
    } else {
        match parse_entries(b, off + 3, b[off], get16(b, off + 1) as nat, c) {
            None => None,
            Some((c2, next)) => if next <= off || next > b.len() {
                None
            } else {
                parse_sections(b, next, c2)
            },
        }
    }
}

/// The configuration an IR holds: `None` for a wrong magic or version, a
/// section that does not read, or a checksum that does not match. Bytes
/// after the checksum are ignored.
pub open spec fn parse_of(b: Seq<u8>) -> Option<ConfigView> {
    if b.len() < HEADER_LEN + 3 || b.subrange(0, 4) != MAGIC@ || b[4] != VERSION {
        None
    } else {
        match parse_sections(b, HEADER_LEN as int, empty_config(params_of(b))) {
            None => None,
            Some((c, end)) => if end + 2 > b.len() || crc16_of(b.take(end)) != get16(b, end) {
                None
            } else {
                Some(c)
            },
        }
    }
}

fn get_u16(buf: &[u8], off: usize) -> (r: u16)
    requires
        off + 1 < buf@.len(),
    ensures
        r == get16(buf@, off as int),
{
    let lo = buf[off];
    let hi = buf[off + 1];
    let r: u16 = (lo as u16) | ((hi as u16) << 8);
    assert(r == (lo + 256 * hi) as u16) by (bit_vector)
        requires
            r == (lo as u16) | ((hi as u16) << 8),
    ;
    r
}

/// Reading entries ends within the buffer, at or after where it started.
proof fn lemma_parse_entries_bounds(b: Seq<u8>, off: int, sec: u8, n: nat, c: ConfigView)
    requires
        0 <= off <= b.len(),
    ensures
        parse_entries(b, off, sec, n, c) matches Some((c2, next)) ==> off <= next <= b.len(),
    decreases n,
{
    if n > 0 {
        if let Some((c2, next)) = entry_of(b, off, sec, c) {
            lemma_parse_entries_bounds(b, next, sec, (n - 1) as nat, c2);
        }
    }
}

/// Reads one entry of section `sec` at `off` into `cfg`.
fn parse_entry_into(buf: &[u8], off: usize, sec: u8, cfg: &mut Config) -> (r: Option<usize>)
    requires
        off <= buf@.len(),
    ensures
        match entry_of(buf@, off as int, sec, old(cfg)@) {
            Some((c, next)) => r matches Some(e) && e == next && final(cfg)@ == c,
            None => r is None,
        },
{
    let w: usize = if sec == SEC_COMBO3 || sec == SEC_EXTRA {
        3
    } else if sec == SEC_LAYERS || sec == SEC_COMBO2 || sec == SEC_MODES || sec == SEC_CUSTOM {
        2
    } else {
        return None;
    };
    assert(width_of(sec) == Some(w as nat));
    if buf.len() - off < w {
        return None;
    }
    let (v, next) = match OverrideVal::decode(buf, off + w) {
        Some(x) => x,
        None => {
            return None;
        },
    };
    let a = buf[off];
    let b = buf[off + 1];
    let res = if w == 3 {
        let c = buf[off + 2];
        assert(buf@.subrange(off as int, off + 3) =~= seq![a, b, c]);
        if sec == SEC_COMBO3 {
            cfg.set_combo3(a, b, c, v)
        } else {
            cfg.set_extra(a, b, c, v)
        }
    } else {
        assert(buf@.subrange(off as int, off + 2) =~= seq![a, b]);
        if sec == SEC_LAYERS {
            cfg.set_layer(a, b, v)
        } else if sec == SEC_COMBO2 {
            cfg.set_combo2(a, b, v)
        } else if sec == SEC_MODES {
            cfg.set_mode(a, b, v)
        } else {
            cfg.set_custom(a, b, v)
        }
    };
    if res.is_err() {
        return None;
    }
    Some(next)
}

/// Reads `count` entries of section `sec` at `off` into `cfg`.
fn parse_entries_into(buf: &[u8], off: usize, sec: u8, count: usize, cfg: &mut Config) -> (r: Option<usize>)
    requires
        off <= buf@.len(),
    ensures
        match parse_entries(buf@, off as int, sec, count as nat, old(cfg)@) {
            Some((c, next)) => r matches Some(e) && e == next && final(cfg)@ == c,
            None => r is None,
        },
{
    let mut pos = off;
    let mut i: usize = 0;
    while i < count
        invariant
            i <= count,
            pos <= buf@.len(),
            parse_entries(buf@, off as int, sec, count as nat, old(cfg)@) == parse_entries(
                buf@,
                pos as int,
                sec,
                (count - i) as nat,
                cfg@,
            ),
        decreases count - i,
    {
        match parse_entry_into(buf, pos, sec, cfg) {
            Some(next) => {
                pos = next;
            },
            None => {
                return None;
            },
        }
        i += 1;
    }
    Some(pos)
}

/// Reads the sections after the header into `cfg`; returns the offset
/// after the end marker.
fn parse_body(buf: &[u8], cfg: &mut Config) -> (r: Option<usize>)
    requires
        HEADER_LEN <= buf@.len(),
    ensures
        match parse_sections(buf@, HEADER_LEN as int, old(cfg)@) {
            Some((c, end)) => r matches Some(e) && e == end && final(cfg)@ == c,
            None => r is None,
        },
{
    let ghost whole = parse_sections(buf@, HEADER_LEN as int, cfg@);
    let mut off: usize = HEADER_LEN;
    loop
        invariant
            off <= buf@.len(),
            whole == parse_sections(buf@, off as int, cfg@),
            whole == parse_sections(buf@, HEADER_LEN as int, old(cfg)@),
        decreases buf@.len() - off,
    {
        if off >= buf.len() {
            return None;
        }
        let sec = buf[off];
        if sec == SEC_END {
            return Some(off + 1);
        }
        if buf.len() - off < 3 {
            return None;
        }
        let count = get_u16(buf, off + 1) as usize;
        let ghost before = cfg@;
        proof {
            lemma_parse_entries_bounds(buf@, off + 3, sec, count as nat, before);
        }
        match parse_entries_into(buf, off + 3, sec, count, cfg) {
            None => {
                return None;
            },
            Some(next) => {
                off = next;
            },
        }
    }
}

/// Reads an IR: `None` for a wrong magic or version, a section that does
/// not read, or a checksum that does not match.
pub fn parse(buf: &[u8]) -> (r: Option<Config>)
    ensures
        match parse_of(buf@) {
            Some(c) => r matches Some(x) && x@ == c,
            None => r is None,
        },
        r matches Some(x) ==> config_wf(x@),
{
    proof {
        laws::lemma_parse_wf(buf@);
    }
    if buf.len() < HEADER_LEN + 3 {
        return None;
    }
    let magic_ok = buf[0] == MAGIC[0] && buf[1] == MAGIC[1] && buf[2] == MAGIC[2] && buf[3] == MAGIC[3];
    proof {
        if magic_ok {
            assert(buf@.subrange(0, 4) =~= MAGIC@);
        } else {
            assert(buf@.subrange(0, 4) != MAGIC@) by {
                if buf@.subrange(0, 4) == MAGIC@ {
                    assert(buf@.subrange(0, 4)[0] == buf@[0]);
                    assert(buf@.subrange(0, 4)[1] == buf@[1]);
                    assert(buf@.subrange(0, 4)[2] == buf@[2]);
                    assert(buf@.subrange(0, 4)[3] == buf@[3]);
                }
            }
        }
    }
    if !magic_ok || buf[4] != VERSION {
        return None;
    }
    let params = Params {
        window_ms: get_u16(buf, 5),
        tap_ms: get_u16(buf, 7),
        repeat_delay_ms: get_u16(buf, 9),
        repeat_interval_ms: get_u16(buf, 11),
        led_brightness: buf[13],
        flags: buf[14],
    };
    let mut cfg = Config {
        params,
        layers: Vec::new(),
        combo2: Vec::new(),
        combo3: Vec::new(),
        modes: Vec::new(),
        extra: Vec::new(),
        custom: Vec::new(),
    };
    assert(cfg@.layers =~= Seq::empty());
    assert(cfg@.combo2 =~= Seq::empty());
    assert(cfg@.combo3 =~= Seq::empty());
    assert(cfg@.modes =~= Seq::empty());
    assert(cfg@.extra =~= Seq::empty());
    assert(cfg@.custom =~= Seq::empty());
    assert(cfg@ == empty_config(params_of(buf@)));
    let end = match parse_body(buf, &mut cfg) {
        Some(e) => e,
        None => {
            return None;
        },
    };
    if end > buf.len() - 2 {
        return None;
    }
    let want = get_u16(buf, end);
    let crc = crc16(&buf[0..end]);
    assert(buf@.subrange(0, end as int) =~= buf@.take(end as int));
    if crc != want {
        return None;
    }
    Some(cfg)
}

} // verus!
