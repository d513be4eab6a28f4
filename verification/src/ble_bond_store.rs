//! The BLE bond record in flash: one bonded host, the third 4 KiB sector
//! from the end. It holds what the host stack can restore: the peer
//! identity, the LE Secure Connections long-term key, the local static
//! random address and the client configuration of three characteristics.
//!
//! Layout (64 bytes read, a 256-byte page written, 0xFF elsewhere):
//!   [0..4] magic "NGBD", [4] version, [5] flags, [6] security level,
//!   [7..13] peer address, [13..29] LTK, [29..45] IRK, [45..51] local
//!   address, [51..57] three CCCD values (16 bits each, little-endian).
use vstd::prelude::*;

use crate::config::le16;

verus! {

pub const BOND_MAGIC: [u8; 4] = [0x4e, 0x47, 0x42, 0x44];
pub const BOND_VERSION: u8 = 3;
/// Bytes read back.
pub const RECORD_LEN: usize = 64;
/// Bytes written (one flash page).
pub const FLASH_WRITE_LEN: usize = 256;

pub const OFF_MAGIC: usize = 0;
pub const OFF_VERSION: usize = 4;
pub const OFF_FLAGS: usize = 5;
pub const OFF_SECURITY: usize = 6;
pub const OFF_ADDR: usize = 7;
pub const OFF_LTK: usize = 13;
pub const OFF_IRK: usize = 29;
pub const OFF_LOCAL_ADDR: usize = 45;
pub const OFF_CCCD: usize = 51;

pub const FLAG_BONDED: u8 = 0x01;
pub const FLAG_HAS_IRK: u8 = 0x02;

/// Security level of a bond.
#[derive(Clone, Copy, Debug, PartialEq, Eq, Structural)]
pub enum Security {
    NoEncryption,
    Encrypted,
    EncryptedAuthenticated,
}

/// A stored bond, as plain bytes: addresses as six bytes, keys as sixteen
/// little-endian bytes.
#[derive(Clone, Copy, Debug, PartialEq, Eq)]
pub struct BondRecord {
    /// Our static random address used with this host.
    pub local_address: [u8; 6],
    /// The peer's identity address.
    pub peer_address: [u8; 6],
    /// The peer's identity resolving key, if it gave one.
    pub irk: Option<[u8; 16]>,
    /// The long-term key.
    pub ltk: [u8; 16],
    pub security: Security,
    pub bonded: bool,
    /// Client configuration of input report, boot input and battery level.
    pub cccd: [u16; 3],
}

/// A bond record as sequences.
pub struct BondView {
    pub local_address: Seq<u8>,
    pub peer_address: Seq<u8>,
    pub irk: Option<Seq<u8>>,
    pub ltk: Seq<u8>,
    pub security: Security,
    pub bonded: bool,
    pub cccd: Seq<u16>,
}

impl View for BondRecord {
    type V = BondView;

    open spec fn view(&self) -> BondView {
        BondView {
            local_address: self.local_address@,
            peer_address: self.peer_address@,
            irk: match self.irk {
                Some(k) => Some(k@),
                None => None,
            },
            ltk: self.ltk@,
            security: self.security,
            bonded: self.bonded,
            cccd: self.cccd@,
        }
    }
}

/// A local address a bond can be restored with: a static random address
/// (two top bits set), not all zero and not all 0xFF.
pub open spec fn local_address_ok(a: Seq<u8>) -> bool {
    &&& a != Seq::new(6, |i: int| 0u8)
    &&& a != Seq::new(6, |i: int| 0xffu8)
    &&& (a[5] & 0xc0) == 0xc0
}

/// The security byte: 1 encrypted, 2 encrypted and authenticated.
pub open spec fn security_byte(s: Security) -> u8 {
    match s {
        Security::NoEncryption => 0,
        Security::Encrypted => 1,
        Security::EncryptedAuthenticated => 2,
    }
}

/// The flags byte.
pub open spec fn flags_of(v: BondView) -> u8 {
    ((if v.bonded { FLAG_BONDED } else { 0u8 }) | (if v.irk is Some { FLAG_HAS_IRK } else { 0u8 }))
}

/// The page written for a bond.
pub open spec fn bond_page_of(v: BondView) -> Seq<u8> {
    BOND_MAGIC@ + seq![BOND_VERSION, flags_of(v), security_byte(v.security)] + v.peer_address
        + v.ltk + (match v.irk {
        Some(k) => k,
        None => Seq::new(16, |i: int| 0xffu8),
    }) + v.local_address + le16(v.cccd[0]) + le16(v.cccd[1]) + le16(v.cccd[2]) + Seq::new(
        199,
        |i: int| 0xffu8,
    )
}

/// The bond a record holds: `None` without the magic and version, with an
/// unknown security level, or with a local address that cannot be used.
pub open spec fn bond_of(b: Seq<u8>) -> Option<BondView> {
    let flags = b[5];
    let local = b.subrange(45, 51);
    if b.subrange(0, 4) != BOND_MAGIC@ || b[4] != BOND_VERSION {
        None
    } else if b[6] != 1 && b[6] != 2 {
        None
    } else if !local_address_ok(local) {
        None
    } else {
        Some(
            BondView {
                local_address: local,
                peer_address: b.subrange(7, 13),
                irk: if flags & FLAG_HAS_IRK != 0 {
                    Some(b.subrange(29, 45))
                } else {
                    None
                },
                ltk: b.subrange(13, 29),
                security: if b[6] == 1 {
                    Security::Encrypted
                } else {
                    Security::EncryptedAuthenticated
                },
                bonded: flags & FLAG_BONDED != 0,
                cccd: seq![
                    (b[51] + 256 * b[52]) as u16,
                    (b[53] + 256 * b[54]) as u16,
                    (b[55] + 256 * b[56]) as u16,
                ],
            },
        )
    }
}

fn push_bytes(out: &mut Vec<u8>, src: &[u8])
    ensures
        final(out)@ == old(out)@ + src@,
{
    let mut i: usize = 0;
    while i < src.len()
        invariant
            i <= src@.len(),
            out@ == old(out)@ + src@.take(i as int),
        decreases src@.len() - i,
    {
        out.push(src[i]);
        i += 1;
        assert(out@ =~= old(out)@ + src@.take(i as int));
    }
    assert(src@.take(src@.len() as int) =~= src@);
}

fn push_fill(out: &mut Vec<u8>, n: usize)
    ensures
        final(out)@ == old(out)@ + Seq::new(n as nat, |i: int| 0xffu8),
{
    let mut i: usize = 0;
    while i < n
        invariant
            i <= n,
            out@ == old(out)@ + Seq::new(i as nat, |j: int| 0xffu8),
        decreases n - i,
    {
        out.push(0xff);
        i += 1;
        assert(out@ =~= old(out)@ + Seq::new(i as nat, |j: int| 0xffu8));
    }
}

fn push_le16(out: &mut Vec<u8>, v: u16)
    ensures
        final(out)@ == old(out)@ + le16(v),
{
    let lo: u8 = (v & 0xff) as u8;
    let hi: u8 = (v >> 8) as u8;
    assert(lo == v % 256 && hi == v / 256) by (bit_vector)
        requires
            lo == (v & 0xff) as u8,
            hi == (v >> 8) as u8,
    ;
    out.push(lo);
    out.push(hi);
    assert(out@ =~= old(out)@ + le16(v));
}

/// The page to write for a bond; `None` for a bond without encryption.
pub fn encode_bond(rec: &BondRecord) -> (r: Option<[u8; FLASH_WRITE_LEN]>)
    ensures
        r is None <==> rec.security == Security::NoEncryption,
        r matches Some(p) ==> p@ == bond_page_of(rec@),
{
    let sec: u8 = match rec.security {
        Security::NoEncryption => {
            return None;
        },
        Security::Encrypted => 1,
        Security::EncryptedAuthenticated => 2,
    };
    let b: u8 = if rec.bonded {
        FLAG_BONDED
    } else {
        0
    };
    let k: u8 = if rec.irk.is_some() {
        FLAG_HAS_IRK
    } else {
        0
    };
    let flags = b | k;
    let mut out: Vec<u8> = Vec::new();
    out.push(BOND_MAGIC[0]);
    out.push(BOND_MAGIC[1]);
    out.push(BOND_MAGIC[2]);
    out.push(BOND_MAGIC[3]);
    out.push(BOND_VERSION);
    out.push(flags);
    out.push(sec);
    push_bytes(&mut out, &rec.peer_address);
    push_bytes(&mut out, &rec.ltk);
    match rec.irk {
        Some(irk) => push_bytes(&mut out, &irk),
        None => push_fill(&mut out, 16),
    }
    push_bytes(&mut out, &rec.local_address);
    push_le16(&mut out, rec.cccd[0]);
    push_le16(&mut out, rec.cccd[1]);
    push_le16(&mut out, rec.cccd[2]);
    push_fill(&mut out, 199);
    assert(out@ =~= bond_page_of(rec@));
    let mut page = [0xffu8; FLASH_WRITE_LEN];
    let mut i: usize = 0;
    while i < FLASH_WRITE_LEN
        invariant
            i <= FLASH_WRITE_LEN,
            out@.len() == FLASH_WRITE_LEN,
            forall|j: int| 0 <= j < i ==> page@[j] == out@[j],
            page@.len() == FLASH_WRITE_LEN,
        decreases FLASH_WRITE_LEN - i,
    {
        page[i] = out[i];
        i += 1;
    }
    assert(page@ =~= out@);
    Some(page)
}

fn read6(buf: &[u8; RECORD_LEN], off: usize) -> (r: [u8; 6])
    requires
        off + 6 <= RECORD_LEN,
    ensures
        r@ == buf@.subrange(off as int, off + 6),
{
    let r = [buf[off], buf[off + 1], buf[off + 2], buf[off + 3], buf[off + 4], buf[off + 5]];
    assert(r@ =~= buf@.subrange(off as int, off + 6));
    r
}

fn read16(buf: &[u8; RECORD_LEN], off: usize) -> (r: [u8; 16])
    requires
        off + 16 <= RECORD_LEN,
    ensures
        r@ == buf@.subrange(off as int, off + 16),
{
    let mut r = [0u8; 16];
    let mut i: usize = 0;
    while i < 16
        invariant
            i <= 16,
            off + 16 <= RECORD_LEN,
            forall|j: int| 0 <= j < i ==> r@[j] == buf@[off + j],
        decreases 16 - i,
    {
        r[i] = buf[off + i];
        i += 1;
    }
    assert(r@ =~= buf@.subrange(off as int, off + 16));
    r
}

fn get_le16(buf: &[u8; RECORD_LEN], off: usize) -> (r: u16)
    requires
        off + 2 <= RECORD_LEN,
    ensures
        r == (buf@[off as int] + 256 * buf@[off + 1]) as u16,
{
    let lo = buf[off];
    let hi = buf[off + 1];
    let r: u16 = (lo as u16) | ((hi as u16) << 8);
    assert(r == (lo + 256 * hi) as u16) by (bit_vector)
        requires
            r == (lo as u16) | ((hi as u16) << 8),
    ;
    r
}

/// The bond a record holds, if it holds one (see `bond_of`).
pub fn decode_bond(buf: &[u8; RECORD_LEN]) -> (r: Option<BondRecord>)
    ensures
        match bond_of(buf@) {
            Some(v) => r matches Some(x) && x@ == v,
            None => r is None,
        },
{
    let magic_ok = buf[0] == BOND_MAGIC[0] && buf[1] == BOND_MAGIC[1] && buf[2] == BOND_MAGIC[2]
        && buf[3] == BOND_MAGIC[3];
    proof {
        if magic_ok {
            assert(buf@.subrange(0, 4) =~= BOND_MAGIC@);
        } else if buf@.subrange(0, 4) == BOND_MAGIC@ {
            assert(buf@.subrange(0, 4)[0] == buf@[0]);
            assert(buf@.subrange(0, 4)[1] == buf@[1]);
            assert(buf@.subrange(0, 4)[2] == buf@[2]);
            assert(buf@.subrange(0, 4)[3] == buf@[3]);
        }
    }
    if !magic_ok || buf[OFF_VERSION] != BOND_VERSION {
        return None;
    }
    let flags = buf[OFF_FLAGS];
    let security = if buf[OFF_SECURITY] == 1 {
        Security::Encrypted
    } else if buf[OFF_SECURITY] == 2 {
        Security::EncryptedAuthenticated
    } else {
        return None;
    };
    let local = read6(buf, OFF_LOCAL_ADDR);
    let all_zero = local[0] == 0 && local[1] == 0 && local[2] == 0 && local[3] == 0 && local[4]
        == 0 && local[5] == 0;
    let all_ff = local[0] == 0xff && local[1] == 0xff && local[2] == 0xff && local[3] == 0xff
        && local[4] == 0xff && local[5] == 0xff;
    proof {
        if all_zero {
            assert(local@ =~= Seq::new(6, |i: int| 0u8));
        } else if local@ == Seq::new(6, |i: int| 0u8) {
            assert(local@[0] == 0 && local@[1] == 0 && local@[2] == 0 && local@[3] == 0 && local@[4]
                == 0 && local@[5] == 0);
        }
        if all_ff {
            assert(local@ =~= Seq::new(6, |i: int| 0xffu8));
        } else if local@ == Seq::new(6, |i: int| 0xffu8) {
            assert(local@[0] == 0xff && local@[1] == 0xff && local@[2] == 0xff && local@[3] == 0xff
                && local@[4] == 0xff && local@[5] == 0xff);
        }
    }
    if all_zero || all_ff || (local[5] & 0xc0) != 0xc0 {
        return None;
    }
    let irk = if flags & FLAG_HAS_IRK != 0 {
        Some(read16(buf, OFF_IRK))
    } else {
        None
    };
    let rec = BondRecord {
        local_address: local,
        peer_address: read6(buf, OFF_ADDR),
        irk,
        ltk: read16(buf, OFF_LTK),
        security,
        bonded: flags & FLAG_BONDED != 0,
        cccd: [get_le16(buf, OFF_CCCD), get_le16(buf, OFF_CCCD + 2), get_le16(buf, OFF_CCCD + 4)],
    };
    assert(rec@.cccd =~= bond_of(buf@)->0.cccd);
    Some(rec)
}

/// A bond with encryption and a usable local address survives being
/// written and read back.
pub proof fn lemma_bond_roundtrip(rec: BondRecord)
    requires
        rec.security != Security::NoEncryption,
        local_address_ok(rec.local_address@),
    ensures
        bond_of(bond_page_of(rec@).take(RECORD_LEN as int)) == Some(rec@),
{
    let v = rec@;
    let b = bond_page_of(v).take(64);
    let irk_bytes = match v.irk {
        Some(k) => k,
        None => Seq::new(16, |i: int| 0xffu8),
    };
    assert(b.subrange(0, 4) =~= BOND_MAGIC@);
    assert(b.subrange(45, 51) =~= v.local_address);
    assert(b.subrange(7, 13) =~= v.peer_address);
    assert(b.subrange(13, 29) =~= v.ltk);
    assert(b.subrange(29, 45) =~= irk_bytes);
    let bonded = rec.bonded;
    let has_irk = rec.irk is Some;
    let f = flags_of(v);
    assert(f == ((if bonded { 1u8 } else { 0u8 }) | (if has_irk { 2u8 } else { 0u8 })));
    assert((f & 2 != 0) == has_irk && (f & 1 != 0) == bonded) by (bit_vector)
        requires
            f == ((if bonded { 1u8 } else { 0u8 }) | (if has_irk { 2u8 } else { 0u8 })),
    ;
    let c = v.cccd;
    assert(b[51] == le16(c[0])[0] && b[52] == le16(c[0])[1]);
    assert(b[53] == le16(c[1])[0] && b[54] == le16(c[1])[1]);
    assert(b[55] == le16(c[2])[0] && b[56] == le16(c[2])[1]);
    let w = bond_of(b)->0;
    assert(w.cccd =~= v.cccd);
    assert(w.irk == v.irk);
    assert(w == v);
}

} // verus!
