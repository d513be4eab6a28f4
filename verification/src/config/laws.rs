//! What reading gives back of writing: a value decodes to itself, and an
//! IR parses to the configuration it was serialized from.
use vstd::prelude::*;
use vstd::utf8::*;

use crate::config::{
    body_of, bytes_pairs, cap_of, crc16_of, crc_byte, crc_step, crc_steps, dec_val, empty_config, enc_entries, enc_section,
    enc_val, entries_wf, get16, header_of, le16, normalize_key, pairs_bytes, params_of,
    parse_entries, parse_of, parse_sections, section_of, serialize_of, set_entry, set_in, val_wf,
    width_of, with_section, remove_in, remove_entry, find_in, config_wf, entry_of, default_config, sort2_of, sort3_of,
    ConfigView, Entries, Val, MAGIC, MAX_CUSTOM_LAYERS, MAX_KANA_LEN,
    SEC_COMBO2, SEC_COMBO3, SEC_CUSTOM, SEC_END, SEC_EXTRA, SEC_LAYERS, SEC_MODES, VERSION,
};
use crate::assoc::{
    first_index, has_key, lemma_assoc_push, lemma_assoc_swap_remove, lemma_assoc_update,
    lemma_first_index_exists, swap_remove_seq,
};

verus! {

/// Key pairs survive being written as bytes and read back.
pub proof fn lemma_pairs_roundtrip(k: Seq<(u8, u8)>)
    ensures
        bytes_pairs(pairs_bytes(k)) == k,
{
    let b = pairs_bytes(k);
    assert forall|i: int| 0 <= i < k.len() implies #[trigger] bytes_pairs(b)[i] == k[i] by {
        assert((2 * i) / 2 == i);
        assert((2 * i + 1) / 2 == i);
        assert((2 * i) % 2 == 0);
        assert((2 * i + 1) % 2 == 1);
    }
    assert(bytes_pairs(b) =~= k);
}

/// A 16-bit value survives being written little-endian and read back.
pub proof fn lemma_le16_roundtrip(b: Seq<u8>, off: int, v: u16)
    requires
        0 <= off,
        off + 2 <= b.len(),
        b[off] == le16(v)[0],
        b[off + 1] == le16(v)[1],
    ensures
        get16(b, off) == v,
{
}

/// Decoding the encoding of a value gives the value back, and the offset
/// after its encoding.
pub proof fn lemma_dec_enc_val(b: Seq<u8>, off: int, v: Val)
    requires
        val_wf(v),
        0 <= off,
        off + enc_val(v).len() <= b.len(),
        b.subrange(off, off + enc_val(v).len()) == enc_val(v),
    ensures
        dec_val(b, off) == Some((v, off + enc_val(v).len())),
{
    let e = enc_val(v);
    assert(b[off] == e[0]);
    assert(b[off + 1] == e[1]);
    let n = e.len() - 2;
    assert(b.subrange(off + 2, off + 2 + n) =~= e.subrange(2, e.len() as int));
    match v {
        Val::Kana(c) => {
            broadcast use encode_utf8_valid_utf8, encode_utf8_decode_utf8;

            assert(e.subrange(2, e.len() as int) =~= encode_utf8(c));
            assert(n <= MAX_KANA_LEN);
        },
        Val::Keys(k) => {
            assert(e.subrange(2, e.len() as int) =~= pairs_bytes(k));
            lemma_pairs_roundtrip(k);
        },
        Val::Hold(p) => {
            assert(b[off + 2] == e[2]);
            assert(b[off + 3] == e[3]);
        },
    }
}

/// A key as the set functions store it: of the section's width, in its
/// stored form, and for a custom layer with a layer id in range.
pub open spec fn key_canon(sec: u8, k: Seq<u8>) -> bool {
    &&& width_of(sec) == Some(k.len())
    &&& normalize_key(sec, k) == k
    &&& (sec == SEC_CUSTOM ==> k[0] < MAX_CUSTOM_LAYERS)
}

/// The entries of a section as the set functions leave them: canonical
/// keys, none twice, within capacity, values within bounds.
pub open spec fn section_canon(sec: u8, s: Entries) -> bool {
    &&& forall|i: int| 0 <= i < s.len() ==> #[trigger] key_canon(sec, s[i].0)
    &&& forall|i: int, j: int| 0 <= i < j < s.len() ==> #[trigger] s[i].0 != #[trigger] s[j].0
    &&& s.len() <= cap_of(sec)
    &&& entries_wf(s)
}

/// A configuration as the set functions leave it.
pub open spec fn config_canon(c: ConfigView) -> bool {
    &&& section_canon(SEC_LAYERS, c.layers)
    &&& section_canon(SEC_COMBO2, c.combo2)
    &&& section_canon(SEC_COMBO3, c.combo3)
    &&& section_canon(SEC_MODES, c.modes)
    &&& section_canon(SEC_EXTRA, c.extra)
    &&& section_canon(SEC_CUSTOM, c.custom)
}

/// Encoded entries start with the first entry.
pub proof fn lemma_enc_entries_first(s: Entries)
    requires
        s.len() > 0,
    ensures
        enc_entries(s) == s[0].0 + enc_val(s[0].1) + enc_entries(s.drop_first()),
    decreases s.len(),
{
    if s.len() == 1 {
        assert(s.drop_first() =~= Seq::<(Seq<u8>, Val)>::empty());
        assert(s.drop_last() =~= Seq::<(Seq<u8>, Val)>::empty());
        assert(enc_entries(s.drop_last()) =~= Seq::<u8>::empty());
        assert(enc_entries(s) =~= s[0].0 + enc_val(s[0].1) + enc_entries(s.drop_first()));
    } else {
        lemma_enc_entries_first(s.drop_last());
        assert(s.drop_last().drop_first() =~= s.drop_first().drop_last());
        assert(s.drop_first().last() == s.last());
        assert(s.drop_last()[0] == s[0]);
        assert(enc_entries(s) =~= s[0].0 + enc_val(s[0].1) + enc_entries(s.drop_first()));
    }
}

/// The section of a configuration with its section replaced.
pub proof fn lemma_with_section(c: ConfigView, sec: u8, e: Entries, f: Entries)
    requires
        width_of(sec) is Some,
    ensures
        section_of(with_section(c, sec, e), sec) == e,
        with_section(with_section(c, sec, e), sec, f) == with_section(c, sec, f),
        with_section(c, sec, e).params == c.params,
{
}

/// Reading the encoding of canonical entries into a section that holds
/// the entries before them appends them to the section.
proof fn lemma_parse_entries_enc(b: Seq<u8>, off: int, sec: u8, p: Entries, s: Entries, c: ConfigView)
    requires
        width_of(sec) is Some,
        section_canon(sec, p + s),
        section_of(c, sec) == p,
        0 <= off,
        off + enc_entries(s).len() <= b.len(),
        b.subrange(off, off + enc_entries(s).len()) == enc_entries(s),
    ensures
        parse_entries(b, off, sec, s.len(), c) == Some(
            (with_section(c, sec, p + s), off + enc_entries(s).len()),
        ),
    decreases s.len(),
{
    let q = p + s;
    if s.len() == 0 {
        assert(q =~= p);
    } else {
        let k0 = s[0].0;
        let v0 = s[0].1;
        lemma_enc_entries_first(s);
        let e = enc_entries(s);
        let rest = enc_entries(s.drop_first());
        let w = k0.len() as int;
        let ev = enc_val(v0);
        assert(q[p.len() as int] == s[0]);
        assert(key_canon(sec, q[p.len() as int].0));
        assert(entries_wf(q));
        assert(val_wf(q[p.len() as int].1));
        assert(b.subrange(off, off + w) =~= k0) by {
            assert forall|i: int| 0 <= i < w implies b.subrange(off, off + w)[i] == k0[i] by {
                assert(b.subrange(off, off + e.len())[i] == e[i]);
            }
        }
        assert(b.subrange(off + w, off + w + ev.len()) =~= ev) by {
            assert forall|i: int| 0 <= i < ev.len() implies b.subrange(off + w, off + w + ev.len())[i]
                == ev[i] by {
                assert(b.subrange(off, off + e.len())[w + i] == e[w + i]);
            }
        }
        lemma_dec_enc_val(b, off + w, v0);
        assert(!has_key(p, k0)) by {
            if has_key(p, k0) {
                let i = choose|i: int| 0 <= i < p.len() && #[trigger] p[i].0 == k0;
                assert(q[i] == p[i]);
                assert(q[i].0 != q[p.len() as int].0);
            }
        }
        assert(set_entry(p, k0, v0, cap_of(sec)) == Some(p.push((k0, v0))));
        let p2 = p.push((k0, v0));
        let c2 = with_section(c, sec, p2);
        assert(set_in(c, sec, k0, v0) == Some(c2));
        lemma_with_section(c, sec, p2, q);
        assert(p2 + s.drop_first() =~= q);
        let next = off + w + ev.len();
        assert(b.subrange(next, next + rest.len()) =~= rest) by {
            assert forall|i: int| 0 <= i < rest.len() implies b.subrange(next, next + rest.len())[i]
                == rest[i] by {
                assert(b.subrange(off, off + e.len())[w + ev.len() + i] == e[w + ev.len() + i]);
            }
        }
        lemma_parse_entries_enc(b, next, sec, p2, s.drop_first(), c2);
    }
}

/// Reading the encoding of a canonical section into a configuration whose
/// section is empty fills the section and goes on after it.
proof fn lemma_parse_section(b: Seq<u8>, off: int, id: u8, s: Entries, c: ConfigView)
    requires
        width_of(id) is Some,
        section_canon(id, s),
        section_of(c, id) == Seq::<(Seq<u8>, Val)>::empty(),
        0 <= off,
        off + enc_section(id, s).len() <= b.len(),
        b.subrange(off, off + enc_section(id, s).len()) == enc_section(id, s),
    ensures
        parse_sections(b, off, c) == parse_sections(
            b,
            off + enc_section(id, s).len(),
            with_section(c, id, s),
        ),
{
    let sec = enc_section(id, s);
    let e = enc_entries(s);
    assert(b[off] == sec[0]);
    assert(b[off + 1] == sec[1]);
    assert(b[off + 2] == sec[2]);
    assert(s.len() <= 96);
    lemma_le16_roundtrip(b, off + 1, s.len() as u16);
    assert(b.subrange(off + 3, off + 3 + e.len()) =~= e) by {
        assert forall|i: int| 0 <= i < e.len() implies b.subrange(off + 3, off + 3 + e.len())[i]
            == e[i] by {
            assert(b.subrange(off, off + sec.len())[3 + i] == sec[3 + i]);
        }
    }
    assert(Seq::<(Seq<u8>, Val)>::empty() + s =~= s);
    lemma_parse_entries_enc(b, off + 3, id, Seq::empty(), s, c);
}

/// The two parts of a prefix made of two parts.
proof fn lemma_prefix(b: Seq<u8>, x: Seq<u8>, y: Seq<u8>)
    requires
        x.len() + y.len() <= b.len(),
        b.subrange(0, (x.len() + y.len()) as int) == x + y,
    ensures
        b.subrange(0, x.len() as int) == x,
        b.subrange(x.len() as int, (x.len() + y.len()) as int) == y,
{
    assert forall|i: int| 0 <= i < x.len() implies b.subrange(0, x.len() as int)[i] == x[i] by {
        assert(b.subrange(0, (x.len() + y.len()) as int)[i] == (x + y)[i]);
    }
    assert forall|i: int| 0 <= i < y.len() implies b.subrange(x.len() as int, (x.len() + y.len()) as int)[i]
        == y[i] by {
        let xl = x.len() as int;
        assert(b.subrange(xl, (x.len() + y.len()) as int)[i] == b[xl + i]);
        assert(b.subrange(0, (x.len() + y.len()) as int)[xl + i] == b[xl + i]);
        assert((x + y)[xl + i] == y[i]);
    }
    assert(b.subrange(0, x.len() as int) =~= x);
    assert(b.subrange(x.len() as int, (x.len() + y.len()) as int) =~= y);
}

/// An IR starts with the header it was written with.
proof fn lemma_header(b: Seq<u8>, c: ConfigView)
    requires
        16 <= b.len(),
        b.subrange(0, 16) == header_of(c.params),
    ensures
        b.subrange(0, 4) == MAGIC@,
        b[4] == VERSION,
        params_of(b) == c.params,
{
    let h = header_of(c.params);
    assert(h.len() == 16);
    assert forall|i: int| 0 <= i < 16 implies b[i] == h[i] by {
        assert(b.subrange(0, 16)[i] == b[i]);
    }
    assert(b.subrange(0, 4) =~= MAGIC@);
    lemma_le16_roundtrip(b, 5, c.params.window_ms);
    lemma_le16_roundtrip(b, 7, c.params.tap_ms);
    lemma_le16_roundtrip(b, 9, c.params.repeat_delay_ms);
    lemma_le16_roundtrip(b, 11, c.params.repeat_interval_ms);
}

/// The custom section as written: only when there are custom entries.
pub open spec fn custom_part(c: ConfigView) -> Seq<u8> {
    if c.custom.len() > 0 {
        enc_section(SEC_CUSTOM, c.custom)
    } else {
        Seq::empty()
    }
}

/// Reading the sections of a canonical configuration, written one after
/// the other and closed by the end marker, gives the configuration back.
proof fn lemma_parse_all_sections(b: Seq<u8>, c: ConfigView, o: Seq<int>)
    requires
        config_canon(c),
        o.len() == 7,
        0 <= o[0],
        o[1] == o[0] + enc_section(SEC_LAYERS, c.layers).len(),
        o[2] == o[1] + enc_section(SEC_COMBO2, c.combo2).len(),
        o[3] == o[2] + enc_section(SEC_COMBO3, c.combo3).len(),
        o[4] == o[3] + enc_section(SEC_MODES, c.modes).len(),
        o[5] == o[4] + enc_section(SEC_EXTRA, c.extra).len(),
        o[6] == o[5] + custom_part(c).len(),
        o[6] < b.len(),
        b.subrange(o[0], o[1]) == enc_section(SEC_LAYERS, c.layers),
        b.subrange(o[1], o[2]) == enc_section(SEC_COMBO2, c.combo2),
        b.subrange(o[2], o[3]) == enc_section(SEC_COMBO3, c.combo3),
        b.subrange(o[3], o[4]) == enc_section(SEC_MODES, c.modes),
        b.subrange(o[4], o[5]) == enc_section(SEC_EXTRA, c.extra),
        b.subrange(o[5], o[6]) == custom_part(c),
        b[o[6]] == SEC_END,
    ensures
        parse_sections(b, o[0], empty_config(c.params)) == Some((c, o[6] + 1)),
{
    let c0 = empty_config(c.params);
    let c1 = with_section(c0, SEC_LAYERS, c.layers);
    let c2 = with_section(c1, SEC_COMBO2, c.combo2);
    let c3 = with_section(c2, SEC_COMBO3, c.combo3);
    let c4 = with_section(c3, SEC_MODES, c.modes);
    let c5 = with_section(c4, SEC_EXTRA, c.extra);
    lemma_parse_section(b, o[0], SEC_LAYERS, c.layers, c0);
    lemma_parse_section(b, o[1], SEC_COMBO2, c.combo2, c1);
    lemma_parse_section(b, o[2], SEC_COMBO3, c.combo3, c2);
    lemma_parse_section(b, o[3], SEC_MODES, c.modes, c3);
    lemma_parse_section(b, o[4], SEC_EXTRA, c.extra, c4);
    let c6 = if c.custom.len() > 0 {
        lemma_parse_section(b, o[5], SEC_CUSTOM, c.custom, c5);
        with_section(c5, SEC_CUSTOM, c.custom)
    } else {
        assert(c.custom =~= Seq::<(Seq<u8>, Val)>::empty());
        c5
    };
    assert(c6 == c);
    assert(parse_sections(b, o[6], c6) == Some((c6, o[6] + 1)));
}

/// Where the parts of an IR stand: the header, the sections one after the
/// other, the end marker, the checksum.
proof fn lemma_layout(c: ConfigView) -> (o: Seq<int>)
    ensures
        o.len() == 7,
        o[0] == 16,
        o[1] == o[0] + enc_section(SEC_LAYERS, c.layers).len(),
        o[2] == o[1] + enc_section(SEC_COMBO2, c.combo2).len(),
        o[3] == o[2] + enc_section(SEC_COMBO3, c.combo3).len(),
        o[4] == o[3] + enc_section(SEC_MODES, c.modes).len(),
        o[5] == o[4] + enc_section(SEC_EXTRA, c.extra).len(),
        o[6] == o[5] + custom_part(c).len(),
        serialize_of(c).len() == o[6] + 3,
        serialize_of(c).subrange(0, 16) == header_of(c.params),
        serialize_of(c).subrange(o[0], o[1]) == enc_section(SEC_LAYERS, c.layers),
        serialize_of(c).subrange(o[1], o[2]) == enc_section(SEC_COMBO2, c.combo2),
        serialize_of(c).subrange(o[2], o[3]) == enc_section(SEC_COMBO3, c.combo3),
        serialize_of(c).subrange(o[3], o[4]) == enc_section(SEC_MODES, c.modes),
        serialize_of(c).subrange(o[4], o[5]) == enc_section(SEC_EXTRA, c.extra),
        serialize_of(c).subrange(o[5], o[6]) == custom_part(c),
        serialize_of(c)[o[6]] == SEC_END,
        serialize_of(c).take(o[6] + 1) == body_of(c),
        serialize_of(c)[o[6] + 1] == le16(crc16_of(body_of(c)))[0],
        serialize_of(c)[o[6] + 2] == le16(crc16_of(body_of(c)))[1],
{
    let h = header_of(c.params);
    let s1 = enc_section(SEC_LAYERS, c.layers);
    let s2 = enc_section(SEC_COMBO2, c.combo2);
    let s3 = enc_section(SEC_COMBO3, c.combo3);
    let s4 = enc_section(SEC_MODES, c.modes);
    let s5 = enc_section(SEC_EXTRA, c.extra);
    let s6 = custom_part(c);
    let p1 = h;
    let p2 = p1 + s1;
    let p3 = p2 + s2;
    let p4 = p3 + s3;
    let p5 = p4 + s4;
    let p6 = p5 + s5;
    let p7 = p6 + s6;
    let body = body_of(c);
    let crc = le16(crc16_of(body));
    let b = serialize_of(c);
    assert(body == p7 + seq![SEC_END]);
    assert(b == body + crc);
    let o7 = p7.len() as int;
    assert(b.subrange(0, b.len() as int) =~= b);
    lemma_prefix(b, body, crc);
    lemma_prefix(b, p7, seq![SEC_END]);
    lemma_prefix(b, p6, s6);
    lemma_prefix(b, p5, s5);
    lemma_prefix(b, p4, s4);
    lemma_prefix(b, p3, s3);
    lemma_prefix(b, p2, s2);
    lemma_prefix(b, p1, s1);
    assert(b[o7] == b.subrange(o7, o7 + 1)[0]);
    assert(b[o7 + 1] == b.subrange(o7 + 1, o7 + 3)[0]);
    assert(b[o7 + 2] == b.subrange(o7 + 1, o7 + 3)[1]);
    assert(b.take(o7 + 1) == body);
    seq![
        p1.len() as int,
        p2.len() as int,
        p3.len() as int,
        p4.len() as int,
        p5.len() as int,
        p6.len() as int,
        o7,
    ]
}

/// Serializing a configuration as the set functions leave it and parsing
/// the bytes gives the configuration back.
pub proof fn lemma_parse_serialize(c: ConfigView)
    requires
        config_canon(c),
    ensures
        parse_of(serialize_of(c)) == Some(c),
{
    let b = serialize_of(c);
    let o = lemma_layout(c);
    lemma_header(b, c);
    lemma_parse_all_sections(b, c, o);
    lemma_le16_roundtrip(b, o[6] + 1, crc16_of(body_of(c)));
}

/// Bytes that start with a sequence agree with it on each of its ranges.
proof fn lemma_starts_with(b: Seq<u8>, s: Seq<u8>, x: int, y: int)
    requires
        0 <= x <= y <= s.len() <= b.len(),
        b.take(s.len() as int) == s,
    ensures
        b.subrange(x, y) == s.subrange(x, y),
{
    assert forall|i: int| 0 <= i < y - x implies b.subrange(x, y)[i] == s.subrange(x, y)[i] by {
        assert(b.take(s.len() as int)[x + i] == b[x + i]);
    }
    assert(b.subrange(x, y) =~= s.subrange(x, y));
}

/// A buffer that starts with the IR of a configuration parses to it,
/// whatever follows the IR (such as the erased rest of a flash sector).
pub proof fn lemma_parse_prefix(c: ConfigView, b: Seq<u8>)
    requires
        config_canon(c),
        serialize_of(c).len() <= b.len(),
        b.take(serialize_of(c).len() as int) == serialize_of(c),
    ensures
        parse_of(b) == Some(c),
{
    let s = serialize_of(c);
    let o = lemma_layout(c);
    let n = s.len() as int;
    lemma_starts_with(b, s, 0, 16);
    lemma_starts_with(b, s, o[0], o[1]);
    lemma_starts_with(b, s, o[1], o[2]);
    lemma_starts_with(b, s, o[2], o[3]);
    lemma_starts_with(b, s, o[3], o[4]);
    lemma_starts_with(b, s, o[4], o[5]);
    lemma_starts_with(b, s, o[5], o[6]);
    lemma_starts_with(b, s, 0, o[6] + 1);
    assert(b.take(n)[o[6]] == b[o[6]]);
    assert(b.take(n)[o[6] + 1] == b[o[6] + 1]);
    assert(b.take(n)[o[6] + 2] == b[o[6] + 2]);
    lemma_header(b, c);
    lemma_parse_all_sections(b, c, o);
    assert(b.take(o[6] + 1) =~= b.subrange(0, o[6] + 1));
    assert(s.take(o[6] + 1) =~= s.subrange(0, o[6] + 1));
    lemma_le16_roundtrip(b, o[6] + 1, crc16_of(body_of(c)));
}

/// Replacing one section by canonical entries keeps a configuration canonical.
proof fn lemma_with_section_canon(c: ConfigView, sec: u8, e: Entries)
    requires
        config_canon(c),
        width_of(sec) is Some,
        section_canon(sec, e),
    ensures
        config_canon(with_section(c, sec, e)),
{
}

/// The stored form of a key is canonical.
proof fn lemma_normalize_canon(sec: u8, key: Seq<u8>)
    requires
        width_of(sec) == Some(key.len()),
        sec == SEC_CUSTOM ==> key[0] < MAX_CUSTOM_LAYERS,
    ensures
        key_canon(sec, normalize_key(sec, key)),
{
    let k = normalize_key(sec, key);
    if sec == SEC_COMBO2 {
        assert(sort2_of(k[0], k[1]) =~= k);
    } else if sec == SEC_COMBO3 {
        assert(sort3_of(k[0], k[1], k[2]) =~= k);
    } else {
        assert(k == key);
    }
}

/// The default configuration is canonical.
pub proof fn lemma_default_canon()
    ensures
        config_canon(default_config()),
{
}

/// A set that succeeds, with a key of the section's width and a value
/// within bounds, keeps a configuration canonical.
pub proof fn lemma_set_canon(c: ConfigView, sec: u8, key: Seq<u8>, v: Val)
    requires
        config_canon(c),
        width_of(sec) == Some(key.len()),
        val_wf(v),
        set_in(c, sec, key, v) is Some,
    ensures
        config_canon(set_in(c, sec, key, v)->0),
{
    let s = section_of(c, sec);
    let k = normalize_key(sec, key);
    lemma_normalize_canon(sec, key);
    let e = set_entry(s, k, v, cap_of(sec))->0;
    if has_key(s, k) {
        lemma_first_index_exists(s, k);
        let i = choose|i: int| first_index(s, k, i);
        assert(e == s.update(i, (k, v)));
        assert forall|a: int, b: int| 0 <= a < b < e.len() implies #[trigger] e[a].0 != #[trigger] e[b].0 by {
            assert(e[a].0 == s[a].0);
            assert(e[b].0 == s[b].0);
        }
        assert forall|a: int| 0 <= a < e.len() implies #[trigger] key_canon(sec, e[a].0) by {
            assert(e[a].0 == s[a].0);
        }
        assert forall|a: int| 0 <= a < e.len() implies #[trigger] val_wf(e[a].1) by {
            if a != i {
                assert(e[a] == s[a]);
            }
        }
    } else {
        assert(e == s.push((k, v)));
        assert forall|a: int, b: int| 0 <= a < b < e.len() implies #[trigger] e[a].0 != #[trigger] e[b].0 by {
            if b == s.len() {
                assert(e[a] == s[a]);
            } else {
                assert(e[a] == s[a]);
                assert(e[b] == s[b]);
            }
        }
        assert forall|a: int| 0 <= a < e.len() implies #[trigger] key_canon(sec, e[a].0) by {
            if a < s.len() {
                assert(e[a] == s[a]);
            }
        }
        assert forall|a: int| 0 <= a < e.len() implies #[trigger] val_wf(e[a].1) by {
            if a < s.len() {
                assert(e[a] == s[a]);
            }
        }
    }
    lemma_with_section_canon(c, sec, e);
}

/// A removal keeps a configuration canonical.
pub proof fn lemma_remove_canon(c: ConfigView, sec: u8, key: Seq<u8>)
    requires
        config_canon(c),
        width_of(sec) is Some,
    ensures
        config_canon(remove_in(c, sec, key)),
{
    let s = section_of(c, sec);
    let k = normalize_key(sec, key);
    let e = remove_entry(s, k);
    if has_key(s, k) {
        lemma_first_index_exists(s, k);
        let i = choose|i: int| first_index(s, k, i);
        assert(e == swap_remove_seq(s, i));
        let n = s.len() - 1;
        assert forall|a: int| 0 <= a < e.len() implies e[a] == (if a == i { s[n] } else { s[a] }) by {
        }
        assert forall|a: int, b: int| 0 <= a < b < e.len() implies #[trigger] e[a].0 != #[trigger] e[b].0 by {
            if a == i {
                assert(e[a] == s[n]);
                assert(e[b] == s[b]);
            } else if b == i {
                assert(e[b] == s[n]);
                assert(e[a] == s[a]);
            } else {
                assert(e[a] == s[a]);
                assert(e[b] == s[b]);
            }
        }
        assert forall|a: int| 0 <= a < e.len() implies #[trigger] key_canon(sec, e[a].0) by {
            if a == i {
                assert(e[a] == s[n]);
            } else {
                assert(e[a] == s[a]);
            }
        }
        assert forall|a: int| 0 <= a < e.len() implies #[trigger] val_wf(e[a].1) by {
            if a == i {
                assert(e[a] == s[n]);
            } else {
                assert(e[a] == s[a]);
            }
        }
    }
    lemma_with_section_canon(c, sec, e);
}

/// A set that succeeds: the key then gives the new value, every other key
/// of the section and every key of the other sections what they gave before.
pub proof fn lemma_find_after_set(c: ConfigView, sec: u8, key: Seq<u8>, v: Val, sec2: u8, key2: Seq<u8>)
    requires
        width_of(sec) == Some(key.len()),
        width_of(sec2) == Some(key2.len()),
        set_in(c, sec, key, v) is Some,
    ensures
        find_in(set_in(c, sec, key, v)->0, sec, key) == Some(v),
        sec2 != sec || normalize_key(sec2, key2) != normalize_key(sec, key) ==> find_in(
            set_in(c, sec, key, v)->0,
            sec2,
            key2,
        ) == find_in(c, sec2, key2),
{
    let s = section_of(c, sec);
    let k = normalize_key(sec, key);
    let k2 = normalize_key(sec2, key2);
    let e = set_entry(s, k, v, cap_of(sec))->0;
    lemma_with_section(c, sec, e, e);
    if has_key(s, k) {
        lemma_first_index_exists(s, k);
        let i = choose|i: int| first_index(s, k, i);
        lemma_assoc_update(s, k, v, i, k2);
    } else {
        lemma_assoc_push(s, k, v, k2);
    }
}

/// After a removal the key gives nothing.
pub proof fn lemma_find_after_remove(c: ConfigView, sec: u8, key: Seq<u8>)
    requires
        config_canon(c),
        width_of(sec) == Some(key.len()),
    ensures
        find_in(remove_in(c, sec, key), sec, key) is None,
{
    let s = section_of(c, sec);
    let k = normalize_key(sec, key);
    lemma_with_section(c, sec, remove_entry(s, k), s);
    if has_key(s, k) {
        lemma_first_index_exists(s, k);
        let i = choose|i: int| first_index(s, k, i);
        lemma_assoc_swap_remove(s, k, i);
    } else {
        crate::assoc::lemma_assoc_some(s, k);
    }
}

/// A two-key chord is found whatever the order of its keys.
pub proof fn lemma_combo2_unordered(c: ConfigView, a: u8, b: u8)
    ensures
        find_in(c, SEC_COMBO2, seq![a, b]) == find_in(c, SEC_COMBO2, seq![b, a]),
{
    assert(normalize_key(SEC_COMBO2, seq![a, b]) =~= normalize_key(SEC_COMBO2, seq![b, a]));
}

/// A three-key chord is found whatever the order of its keys.
pub proof fn lemma_combo3_unordered(c: ConfigView, a: u8, b: u8, d: u8)
    ensures
        find_in(c, SEC_COMBO3, seq![a, b, d]) == find_in(c, SEC_COMBO3, seq![b, a, d]),
        find_in(c, SEC_COMBO3, seq![a, b, d]) == find_in(c, SEC_COMBO3, seq![a, d, b]),
        find_in(c, SEC_COMBO3, seq![a, b, d]) == find_in(c, SEC_COMBO3, seq![d, b, a]),
{
    assert(normalize_key(SEC_COMBO3, seq![a, b, d]) =~= normalize_key(SEC_COMBO3, seq![b, a, d]));
    assert(normalize_key(SEC_COMBO3, seq![a, b, d]) =~= normalize_key(SEC_COMBO3, seq![a, d, b]));
    assert(normalize_key(SEC_COMBO3, seq![a, b, d]) =~= normalize_key(SEC_COMBO3, seq![d, b, a]));
}

/// A decoded value is within the bounds of its kind.
pub proof fn lemma_dec_val_wf(b: Seq<u8>, off: int)
    requires
        0 <= off,
    ensures
        dec_val(b, off) matches Some((v, next)) ==> val_wf(v) && off + 2 <= next <= b.len(),
{
    broadcast use decode_utf8_encode_utf8;

    if let Some((v, next)) = dec_val(b, off) {
        let len = b[off + 1] as int;
        let payload = b.subrange(off + 2, off + 2 + len);
        if let Val::Kana(c) = v {
            assert(encode_utf8(decode_utf8(payload)) == payload);
        }
    }
}

/// Replacing one section by entries within bounds keeps a configuration
/// within bounds.
proof fn lemma_with_section_wf(c: ConfigView, sec: u8, e: Entries)
    requires
        config_wf(c),
        width_of(sec) is Some,
        e.len() <= cap_of(sec),
        entries_wf(e),
    ensures
        config_wf(with_section(c, sec, e)),
{
}

/// A set that succeeds with a value within bounds keeps a configuration
/// within bounds.
pub proof fn lemma_set_wf(c: ConfigView, sec: u8, key: Seq<u8>, v: Val)
    requires
        config_wf(c),
        width_of(sec) is Some,
        val_wf(v),
        set_in(c, sec, key, v) is Some,
    ensures
        config_wf(set_in(c, sec, key, v)->0),
{
    let s = section_of(c, sec);
    let k = normalize_key(sec, key);
    let e = set_entry(s, k, v, cap_of(sec))->0;
    assert(s.len() <= cap_of(sec));
    assert(entries_wf(s));
    if has_key(s, k) {
        lemma_first_index_exists(s, k);
        let i = choose|i: int| first_index(s, k, i);
        assert forall|a: int| 0 <= a < e.len() implies #[trigger] val_wf(e[a].1) by {
            if a != i {
                assert(e[a] == s[a]);
            }
        }
    } else {
        assert forall|a: int| 0 <= a < e.len() implies #[trigger] val_wf(e[a].1) by {
            if a < s.len() {
                assert(e[a] == s[a]);
            }
        }
    }
    lemma_with_section_wf(c, sec, e);
}

/// A removal keeps a configuration within bounds.
pub proof fn lemma_remove_wf(c: ConfigView, sec: u8, key: Seq<u8>)
    requires
        config_wf(c),
        width_of(sec) is Some,
    ensures
        config_wf(remove_in(c, sec, key)),
{
    let s = section_of(c, sec);
    let k = normalize_key(sec, key);
    let e = remove_entry(s, k);
    assert(s.len() <= cap_of(sec));
    assert(entries_wf(s));
    if has_key(s, k) {
        lemma_first_index_exists(s, k);
        let i = choose|i: int| first_index(s, k, i);
        let n = s.len() - 1;
        assert forall|a: int| 0 <= a < e.len() implies #[trigger] val_wf(e[a].1) by {
            if a == i {
                assert(e[a] == s[n]);
            } else {
                assert(e[a] == s[a]);
            }
        }
    }
    lemma_with_section_wf(c, sec, e);
}

/// Reading an entry keeps a configuration within bounds.
pub proof fn lemma_entry_wf(b: Seq<u8>, off: int, sec: u8, c: ConfigView)
    requires
        config_wf(c),
        0 <= off,
    ensures
        entry_of(b, off, sec, c) matches Some((c2, next)) ==> config_wf(c2) && off < next,
{
    if let Some(w) = width_of(sec) {
        if off + w <= b.len() {
            lemma_dec_val_wf(b, off + w);
            if let Some((v, next)) = dec_val(b, off + w) {
                if set_in(c, sec, b.subrange(off, off + w), v) is Some {
                    lemma_set_wf(c, sec, b.subrange(off, off + w), v);
                }
            }
        }
    }
}

/// Reading entries keeps a configuration within bounds.
pub proof fn lemma_parse_entries_wf(b: Seq<u8>, off: int, sec: u8, n: nat, c: ConfigView)
    requires
        config_wf(c),
        0 <= off,
    ensures
        parse_entries(b, off, sec, n, c) matches Some((c2, next)) ==> config_wf(c2),
    decreases n,
{
    if n > 0 {
        lemma_entry_wf(b, off, sec, c);
        if let Some((c2, next)) = entry_of(b, off, sec, c) {
            lemma_parse_entries_wf(b, next, sec, (n - 1) as nat, c2);
        }
    }
}

/// Reading sections keeps a configuration within bounds.
pub proof fn lemma_parse_sections_wf(b: Seq<u8>, off: int, c: ConfigView)
    requires
        config_wf(c),
    ensures
        parse_sections(b, off, c) matches Some((c2, next)) ==> config_wf(c2),
    decreases b.len() - off,
{
    if 0 <= off < b.len() && b[off] != SEC_END && off + 3 <= b.len() {
        lemma_parse_entries_wf(b, off + 3, b[off], get16(b, off + 1) as nat, c);
        if let Some((c2, next)) = parse_entries(b, off + 3, b[off], get16(b, off + 1) as nat, c) {
            if off < next <= b.len() {
                lemma_parse_sections_wf(b, next, c2);
            }
        }
    }
}

/// A configuration read from an IR is within bounds.
pub proof fn lemma_parse_wf(b: Seq<u8>)
    ensures
        parse_of(b) matches Some(c) ==> config_wf(c),
{
    if b.len() >= 19 {
        lemma_parse_sections_wf(b, 16, empty_config(params_of(b)));
    }
}

/// Reading an entry keeps a configuration canonical.
proof fn lemma_entry_canon(b: Seq<u8>, off: int, sec: u8, c: ConfigView)
    requires
        config_canon(c),
        0 <= off,
    ensures
        entry_of(b, off, sec, c) matches Some((c2, next)) ==> config_canon(c2),
{
    if let Some(w) = width_of(sec) {
        if off + w <= b.len() {
            lemma_dec_val_wf(b, off + w);
            if let Some((v, next)) = dec_val(b, off + w) {
                if set_in(c, sec, b.subrange(off, off + w), v) is Some {
                    lemma_set_canon(c, sec, b.subrange(off, off + w), v);
                }
            }
        }
    }
}

/// Reading entries keeps a configuration canonical.
proof fn lemma_parse_entries_canon(b: Seq<u8>, off: int, sec: u8, n: nat, c: ConfigView)
    requires
        config_canon(c),
        0 <= off,
    ensures
        parse_entries(b, off, sec, n, c) matches Some((c2, next)) ==> config_canon(c2),
    decreases n,
{
    if n > 0 {
        lemma_entry_canon(b, off, sec, c);
        lemma_entry_wf(b, off, sec, c);
        if let Some((c2, next)) = entry_of(b, off, sec, c) {
            lemma_parse_entries_canon(b, next, sec, (n - 1) as nat, c2);
        }
    }
}

/// Reading sections keeps a configuration canonical.
proof fn lemma_parse_sections_canon(b: Seq<u8>, off: int, c: ConfigView)
    requires
        config_canon(c),
    ensures
        parse_sections(b, off, c) matches Some((c2, next)) ==> config_canon(c2),
    decreases b.len() - off,
{
    if 0 <= off < b.len() && b[off] != SEC_END && off + 3 <= b.len() {
        lemma_parse_entries_canon(b, off + 3, b[off], get16(b, off + 1) as nat, c);
        if let Some((c2, next)) = parse_entries(b, off + 3, b[off], get16(b, off + 1) as nat, c) {
            if off < next <= b.len() {
                lemma_parse_sections_canon(b, next, c2);
            }
        }
    }
}

/// A configuration read from an IR is canonical: reading goes through the
/// set functions, so keys are normalized, none twice, within capacity.
pub proof fn lemma_parse_canon(b: Seq<u8>)
    ensures
        parse_of(b) matches Some(c) ==> config_canon(c),
{
    if b.len() >= 19 {
        let c0 = empty_config(params_of(b));
        assert(config_canon(c0));
        lemma_parse_sections_canon(b, 16, c0);
    }
}

// ---------------------------------------------------------------------
// The checksum: CRC-16/CCITT-FALSE
// ---------------------------------------------------------------------

/// Eight steps of the checksum register.
spec fn crc_step8(c: u16) -> u16 {
    crc_step(crc_step(crc_step(crc_step(crc_step(crc_step(crc_step(crc_step(c))))))))
}

proof fn lemma_crc_byte_steps(c: u16, b: u8)
    ensures
        crc_byte(c, b) == crc_step8(c ^ ((b as u16) << 8)),
{
    reveal_with_fuel(crc_steps, 9);
}

/// The checksum of `data` from register value `c`.
spec fn crc_from(c: u16, data: Seq<u8>) -> u16
    decreases data.len(),
{
    if data.len() == 0 {
        c
    } else {
        crc_byte(crc_from(c, data.drop_last()), data.last())
    }
}

proof fn lemma_crc16_from(data: Seq<u8>)
    ensures
        crc16_of(data) == crc_from(0xFFFF, data),
    decreases data.len(),
{
    if data.len() > 0 {
        lemma_crc16_from(data.drop_last());
    }
}

/// Checksums of `p + data` run from the register value after `p`.
proof fn lemma_crc_from_append(c: u16, p: Seq<u8>, data: Seq<u8>)
    ensures
        crc_from(c, p + data) == crc_from(crc_from(c, p), data),
    decreases data.len(),
{
    if data.len() == 0 {
        assert(p + data =~= p);
    } else {
        assert((p + data).drop_last() =~= p + data.drop_last());
        lemma_crc_from_append(c, p, data.drop_last());
    }
}

/// One register step and mixing in a byte lose nothing.
proof fn lemma_crc_step_injective()
    ensures
        forall|a: u16, b: u16| #[trigger] crc_step(a) == #[trigger] crc_step(b) ==> a == b,
        forall|a: u16, b: u16, v: u16| (a ^ v) == (b ^ v) ==> a == b,
{
    assert(forall|a: u16, b: u16| #[trigger] crc_step(a) == #[trigger] crc_step(b) ==> a == b) by (bit_vector);
    assert(forall|a: u16, b: u16, v: u16| (a ^ v) == (b ^ v) ==> a == b) by (bit_vector);
}

/// Different register values stay different after any data.
proof fn lemma_crc_from_injective(a: u16, b: u16, data: Seq<u8>)
    requires
        a != b,
    ensures
        crc_from(a, data) != crc_from(b, data),
    decreases data.len(),
{
    if data.len() > 0 {
        lemma_crc_from_injective(a, b, data.drop_last());
        let x = crc_from(a, data.drop_last());
        let y = crc_from(b, data.drop_last());
        let v = data.last();
        lemma_crc_byte_steps(x, v);
        lemma_crc_byte_steps(y, v);
        lemma_crc_step_injective();
        let w: u16 = (v as u16) << 8;
        assert(x ^ w != y ^ w);
    }
}

/// The checksum is the standard CRC-16/CCITT-FALSE: the register starts
/// at 0xFFFF (so the empty data sums to 0xFFFF) and the catalogue check
/// value, the sum of the ASCII digits "123456789", is 0x29B1.
pub proof fn lemma_crc16_standard()
    ensures
        crc16_of(Seq::<u8>::empty()) == 0xFFFFu16,
        crc16_of(seq![0x31u8, 0x32, 0x33, 0x34, 0x35, 0x36, 0x37, 0x38, 0x39]) == 0x29B1u16,
{
    let d = seq![0x31u8, 0x32, 0x33, 0x34, 0x35, 0x36, 0x37, 0x38, 0x39];
    assert(d.take(0) =~= Seq::<u8>::empty());
    assert(crc16_of(d.take(0)) == 0xFFFFu16);
    let b0: u8 = d[0];
    let x0_0: u16 = 0xffffu16 ^ ((b0 as u16) << 8);
    let x0_1: u16 = crc_step(x0_0);
    let x0_2: u16 = crc_step(x0_1);
    let x0_3: u16 = crc_step(x0_2);
    let x0_4: u16 = crc_step(x0_3);
    let x0_5: u16 = crc_step(x0_4);
    let x0_6: u16 = crc_step(x0_5);
    let x0_7: u16 = crc_step(x0_6);
    let x0_8: u16 = crc_step(x0_7);
    let b1: u8 = d[1];
    let x1_0: u16 = 0xc782u16 ^ ((b1 as u16) << 8);
    let x1_1: u16 = crc_step(x1_0);
    let x1_2: u16 = crc_step(x1_1);
    let x1_3: u16 = crc_step(x1_2);
    let x1_4: u16 = crc_step(x1_3);
    let x1_5: u16 = crc_step(x1_4);
    let x1_6: u16 = crc_step(x1_5);
    let x1_7: u16 = crc_step(x1_6);
    let x1_8: u16 = crc_step(x1_7);
    let b2: u8 = d[2];
    let x2_0: u16 = 0x3dbau16 ^ ((b2 as u16) << 8);
    let x2_1: u16 = crc_step(x2_0);
    let x2_2: u16 = crc_step(x2_1);
    let x2_3: u16 = crc_step(x2_2);
    let x2_4: u16 = crc_step(x2_3);
    let x2_5: u16 = crc_step(x2_4);
    let x2_6: u16 = crc_step(x2_5);
    let x2_7: u16 = crc_step(x2_6);
    let x2_8: u16 = crc_step(x2_7);
    let b3: u8 = d[3];
    let x3_0: u16 = 0x5bceu16 ^ ((b3 as u16) << 8);
    let x3_1: u16 = crc_step(x3_0);
    let x3_2: u16 = crc_step(x3_1);
    let x3_3: u16 = crc_step(x3_2);
    let x3_4: u16 = crc_step(x3_3);
    let x3_5: u16 = crc_step(x3_4);
    let x3_6: u16 = crc_step(x3_5);
    let x3_7: u16 = crc_step(x3_6);
    let x3_8: u16 = crc_step(x3_7);
    let b4: u8 = d[4];
    let x4_0: u16 = 0x5349u16 ^ ((b4 as u16) << 8);
    let x4_1: u16 = crc_step(x4_0);
    let x4_2: u16 = crc_step(x4_1);
    let x4_3: u16 = crc_step(x4_2);
    let x4_4: u16 = crc_step(x4_3);
    let x4_5: u16 = crc_step(x4_4);
    let x4_6: u16 = crc_step(x4_5);
    let x4_7: u16 = crc_step(x4_6);
    let x4_8: u16 = crc_step(x4_7);
    let b5: u8 = d[5];
    let x5_0: u16 = 0x4560u16 ^ ((b5 as u16) << 8);
    let x5_1: u16 = crc_step(x5_0);
    let x5_2: u16 = crc_step(x5_1);
    let x5_3: u16 = crc_step(x5_2);
    let x5_4: u16 = crc_step(x5_3);
    let x5_5: u16 = crc_step(x5_4);
    let x5_6: u16 = crc_step(x5_5);
    let x5_7: u16 = crc_step(x5_6);
    let x5_8: u16 = crc_step(x5_7);
    let b6: u8 = d[6];
    let x6_0: u16 = 0x2ef4u16 ^ ((b6 as u16) << 8);
    let x6_1: u16 = crc_step(x6_0);
    let x6_2: u16 = crc_step(x6_1);
    let x6_3: u16 = crc_step(x6_2);
    let x6_4: u16 = crc_step(x6_3);
    let x6_5: u16 = crc_step(x6_4);
    let x6_6: u16 = crc_step(x6_5);
    let x6_7: u16 = crc_step(x6_6);
    let x6_8: u16 = crc_step(x6_7);
    let b7: u8 = d[7];
    let x7_0: u16 = 0x7718u16 ^ ((b7 as u16) << 8);
    let x7_1: u16 = crc_step(x7_0);
    let x7_2: u16 = crc_step(x7_1);
    let x7_3: u16 = crc_step(x7_2);
    let x7_4: u16 = crc_step(x7_3);
    let x7_5: u16 = crc_step(x7_4);
    let x7_6: u16 = crc_step(x7_5);
    let x7_7: u16 = crc_step(x7_6);
    let x7_8: u16 = crc_step(x7_7);
    let b8: u8 = d[8];
    let x8_0: u16 = 0xa12bu16 ^ ((b8 as u16) << 8);
    let x8_1: u16 = crc_step(x8_0);
    let x8_2: u16 = crc_step(x8_1);
    let x8_3: u16 = crc_step(x8_2);
    let x8_4: u16 = crc_step(x8_3);
    let x8_5: u16 = crc_step(x8_4);
    let x8_6: u16 = crc_step(x8_5);
    let x8_7: u16 = crc_step(x8_6);
    let x8_8: u16 = crc_step(x8_7);
    assert(x0_8 == 0xc782u16 && x1_8 == 0x3dbau16 && x2_8 == 0x5bceu16 && x3_8 == 0x5349u16 && x4_8 == 0x4560u16 && x5_8 == 0x2ef4u16 && x6_8 == 0x7718u16 && x7_8 == 0xa12bu16 && x8_8 == 0x29b1u16) by (bit_vector)
        requires
            x0_1 == crc_step(x0_0),
            x0_2 == crc_step(x0_1),
            x0_3 == crc_step(x0_2),
            x0_4 == crc_step(x0_3),
            x0_5 == crc_step(x0_4),
            x0_6 == crc_step(x0_5),
            x0_7 == crc_step(x0_6),
            x0_8 == crc_step(x0_7),
            b0 == 0x31u8,
            x0_0 == 0xffffu16 ^ ((b0 as u16) << 8),
            x1_1 == crc_step(x1_0),
            x1_2 == crc_step(x1_1),
            x1_3 == crc_step(x1_2),
            x1_4 == crc_step(x1_3),
            x1_5 == crc_step(x1_4),
            x1_6 == crc_step(x1_5),
            x1_7 == crc_step(x1_6),
            x1_8 == crc_step(x1_7),
            b1 == 0x32u8,
            x1_0 == 0xc782u16 ^ ((b1 as u16) << 8),
            x2_1 == crc_step(x2_0),
            x2_2 == crc_step(x2_1),
            x2_3 == crc_step(x2_2),
            x2_4 == crc_step(x2_3),
            x2_5 == crc_step(x2_4),
            x2_6 == crc_step(x2_5),
            x2_7 == crc_step(x2_6),
            x2_8 == crc_step(x2_7),
            b2 == 0x33u8,
            x2_0 == 0x3dbau16 ^ ((b2 as u16) << 8),
            x3_1 == crc_step(x3_0),
            x3_2 == crc_step(x3_1),
            x3_3 == crc_step(x3_2),
            x3_4 == crc_step(x3_3),
            x3_5 == crc_step(x3_4),
            x3_6 == crc_step(x3_5),
            x3_7 == crc_step(x3_6),
            x3_8 == crc_step(x3_7),
            b3 == 0x34u8,
            x3_0 == 0x5bceu16 ^ ((b3 as u16) << 8),
            x4_1 == crc_step(x4_0),
            x4_2 == crc_step(x4_1),
            x4_3 == crc_step(x4_2),
            x4_4 == crc_step(x4_3),
            x4_5 == crc_step(x4_4),
            x4_6 == crc_step(x4_5),
            x4_7 == crc_step(x4_6),
            x4_8 == crc_step(x4_7),
            b4 == 0x35u8,
            x4_0 == 0x5349u16 ^ ((b4 as u16) << 8),
            x5_1 == crc_step(x5_0),
            x5_2 == crc_step(x5_1),
            x5_3 == crc_step(x5_2),
            x5_4 == crc_step(x5_3),
            x5_5 == crc_step(x5_4),
            x5_6 == crc_step(x5_5),
            x5_7 == crc_step(x5_6),
            x5_8 == crc_step(x5_7),
            b5 == 0x36u8,
            x5_0 == 0x4560u16 ^ ((b5 as u16) << 8),
            x6_1 == crc_step(x6_0),
            x6_2 == crc_step(x6_1),
            x6_3 == crc_step(x6_2),
            x6_4 == crc_step(x6_3),
            x6_5 == crc_step(x6_4),
            x6_6 == crc_step(x6_5),
            x6_7 == crc_step(x6_6),
            x6_8 == crc_step(x6_7),
            b6 == 0x37u8,
            x6_0 == 0x2ef4u16 ^ ((b6 as u16) << 8),
            x7_1 == crc_step(x7_0),
            x7_2 == crc_step(x7_1),
            x7_3 == crc_step(x7_2),
            x7_4 == crc_step(x7_3),
            x7_5 == crc_step(x7_4),
            x7_6 == crc_step(x7_5),
            x7_7 == crc_step(x7_6),
            x7_8 == crc_step(x7_7),
            b7 == 0x38u8,
            x7_0 == 0x7718u16 ^ ((b7 as u16) << 8),
            x8_1 == crc_step(x8_0),
            x8_2 == crc_step(x8_1),
            x8_3 == crc_step(x8_2),
            x8_4 == crc_step(x8_3),
            x8_5 == crc_step(x8_4),
            x8_6 == crc_step(x8_5),
            x8_7 == crc_step(x8_6),
            x8_8 == crc_step(x8_7),
            b8 == 0x39u8,
            x8_0 == 0xa12bu16 ^ ((b8 as u16) << 8),
    ;
    assert(d.take(1).drop_last() =~= d.take(0));
    assert(d.take(1).last() == d[0]);
    lemma_crc_byte_steps(0xffffu16, d[0]);
    assert(crc16_of(d.take(1)) == 0xc782u16);
    assert(d.take(2).drop_last() =~= d.take(1));
    assert(d.take(2).last() == d[1]);
    lemma_crc_byte_steps(0xc782u16, d[1]);
    assert(crc16_of(d.take(2)) == 0x3dbau16);
    assert(d.take(3).drop_last() =~= d.take(2));
    assert(d.take(3).last() == d[2]);
    lemma_crc_byte_steps(0x3dbau16, d[2]);
    assert(crc16_of(d.take(3)) == 0x5bceu16);
    assert(d.take(4).drop_last() =~= d.take(3));
    assert(d.take(4).last() == d[3]);
    lemma_crc_byte_steps(0x5bceu16, d[3]);
    assert(crc16_of(d.take(4)) == 0x5349u16);
    assert(d.take(5).drop_last() =~= d.take(4));
    assert(d.take(5).last() == d[4]);
    lemma_crc_byte_steps(0x5349u16, d[4]);
    assert(crc16_of(d.take(5)) == 0x4560u16);
    assert(d.take(6).drop_last() =~= d.take(5));
    assert(d.take(6).last() == d[5]);
    lemma_crc_byte_steps(0x4560u16, d[5]);
    assert(crc16_of(d.take(6)) == 0x2ef4u16);
    assert(d.take(7).drop_last() =~= d.take(6));
    assert(d.take(7).last() == d[6]);
    lemma_crc_byte_steps(0x2ef4u16, d[6]);
    assert(crc16_of(d.take(7)) == 0x7718u16);
    assert(d.take(8).drop_last() =~= d.take(7));
    assert(d.take(8).last() == d[7]);
    lemma_crc_byte_steps(0x7718u16, d[7]);
    assert(crc16_of(d.take(8)) == 0xa12bu16);
    assert(d.take(9).drop_last() =~= d.take(8));
    assert(d.take(9).last() == d[8]);
    lemma_crc_byte_steps(0xa12bu16, d[8]);
    assert(crc16_of(d.take(9)) == 0x29b1u16);
    assert(d.take(9) =~= d);
}

/// Appending the checksum, high byte first, to any data gives a zero
/// checksum: the sum is the remainder of a division by the polynomial,
/// with nothing added after it.
pub proof fn lemma_crc16_residue(data: Seq<u8>)
    ensures
        crc16_of(data + seq![(crc16_of(data) >> 8) as u8, crc16_of(data) as u8]) == 0,
{
    let c = crc16_of(data);
    let t = data + seq![(c >> 8) as u8, c as u8];
    assert(t.drop_last().drop_last() =~= data);
    assert(t.drop_last().last() == (c >> 8) as u8);
    assert(t.last() == c as u8);
    let c1 = crc_byte(c, (c >> 8) as u8);
    assert(crc16_of(t.drop_last()) == c1);
    lemma_crc_byte_steps(c, (c >> 8) as u8);
    lemma_crc_byte_steps(c1, c as u8);
    let a0: u16 = c ^ (((c >> 8) as u8 as u16) << 8);
    let a1: u16 = crc_step(a0);
    let a2: u16 = crc_step(a1);
    let a3: u16 = crc_step(a2);
    let a4: u16 = crc_step(a3);
    let a5: u16 = crc_step(a4);
    let a6: u16 = crc_step(a5);
    let a7: u16 = crc_step(a6);
    let a8: u16 = crc_step(a7);
    let b0: u16 = a8 ^ ((c as u8 as u16) << 8);
    let b1: u16 = crc_step(b0);
    let b2: u16 = crc_step(b1);
    let b3: u16 = crc_step(b2);
    let b4: u16 = crc_step(b3);
    let b5: u16 = crc_step(b4);
    let b6: u16 = crc_step(b5);
    let b7: u16 = crc_step(b6);
    let b8: u16 = crc_step(b7);
    assert(b8 == 0) by (bit_vector)
        requires
            a0 == c ^ (((c >> 8) as u8 as u16) << 8),
            a1 == crc_step(a0),
            a2 == crc_step(a1),
            a3 == crc_step(a2),
            a4 == crc_step(a3),
            a5 == crc_step(a4),
            a6 == crc_step(a5),
            a7 == crc_step(a6),
            a8 == crc_step(a7),
            b0 == a8 ^ ((c as u8 as u16) << 8),
            b1 == crc_step(b0),
            b2 == crc_step(b1),
            b3 == crc_step(b2),
            b4 == crc_step(b3),
            b5 == crc_step(b4),
            b6 == crc_step(b5),
            b7 == crc_step(b6),
            b8 == crc_step(b7),
    ;
}

/// Leading zero bytes change the checksum: the register does not start at
/// zero, so an image shifted by a zero byte does not pass.
pub proof fn lemma_crc16_leading_zero(data: Seq<u8>)
    ensures
        crc16_of(seq![0u8] + data) != crc16_of(data),
{
    lemma_crc16_from(data);
    lemma_crc16_from(seq![0u8] + data);
    lemma_crc_from_append(0xFFFF, seq![0u8], data);
    assert(seq![0u8].drop_last() =~= Seq::<u8>::empty());
    lemma_crc_byte_steps(0xFFFF, 0);
    assert(seq![0u8].last() == 0u8);
    assert(crc_from(0xFFFF, seq![0u8].drop_last()) == 0xFFFFu16);
    assert(crc_from(0xFFFF, seq![0u8]) == crc_byte(0xFFFF, 0));
    let z0: u16 = 0xFFFFu16 ^ (0u8 as u16) << 8;
    let z1: u16 = crc_step(z0);
    let z2: u16 = crc_step(z1);
    let z3: u16 = crc_step(z2);
    let z4: u16 = crc_step(z3);
    let z5: u16 = crc_step(z4);
    let z6: u16 = crc_step(z5);
    let z7: u16 = crc_step(z6);
    let z8: u16 = crc_step(z7);
    assert(z8 != 0xFFFFu16) by (bit_vector)
        requires
            z0 == 0xFFFFu16 ^ (0u8 as u16) << 8,
            z1 == crc_step(z0),
            z2 == crc_step(z1),
            z3 == crc_step(z2),
            z4 == crc_step(z3),
            z5 == crc_step(z4),
            z6 == crc_step(z5),
            z7 == crc_step(z6),
            z8 == crc_step(z7),
    ;
    assert(crc_from(0xFFFF, seq![0u8]) == z8);
    lemma_crc_from_injective(crc_from(0xFFFF, seq![0u8]), 0xFFFF, data);
}

} // verus!
