//! The configuration IR in flash: the second 4 KiB sector from the end
//! (the last one holds the hand record). At boot it is read, and an empty
//! or broken one (magic or checksum) falls back to the defaults.
use vstd::prelude::*;

use crate::config::{config_wf, parse_of, serialize, serialize_of, splice, Config, ConfigView};
use crate::config::laws::{config_canon, lemma_parse_prefix};

verus! {

/// Length of the buffer written: room for a full IR, a multiple of the
/// flash page (256 bytes) and less than a sector. A configuration whose IR
/// is longer cannot be stored.
pub const FLASH_BUF: usize = 3840;

/// `n` rounded up to a multiple of `m`.
pub open spec fn round_up(n: nat, m: nat) -> nat {
    if n % m == 0 {
        n
    } else {
        (n / m + 1) * m
    }
}

/// The flash image of a configuration: its IR, then 0xFF up to
/// `FLASH_BUF` bytes, and the number of bytes to write (the IR length
/// rounded up to a multiple of `write_size`, the flash write unit). `None`
/// when the IR does not fit.
pub fn config_image(cfg: &Config, write_size: usize) -> (r: Option<(Vec<u8>, usize)>)
    requires
        config_wf(cfg@),
        0 < write_size,
        FLASH_BUF % write_size == 0,
    ensures
        r is None <==> serialize_of(cfg@).len() > FLASH_BUF,
        r matches Some((img, n)) ==> {
            &&& img@ == splice(Seq::new(FLASH_BUF as nat, |i: int| 0xffu8), 0, serialize_of(cfg@))
            &&& n == round_up(serialize_of(cfg@).len(), write_size as nat)
            &&& n <= FLASH_BUF
        },
{
    let mut buf: Vec<u8> = vec![0xffu8; FLASH_BUF];
    assert(buf@ =~= Seq::new(FLASH_BUF as nat, |i: int| 0xffu8));
    let n = match serialize(cfg, buf.as_mut_slice()) {
        Some(n) => n,
        None => {
            return None;
        },
    };
    let q = n / write_size;
    let len = if n % write_size == 0 {
        n
    } else {
        assert(q < FLASH_BUF / write_size) by (nonlinear_arith)
            requires
                n <= FLASH_BUF,
                n % write_size != 0,
                q == n / write_size,
                FLASH_BUF % write_size == 0,
                0 < write_size,
        ;
        assert((q + 1) * write_size <= FLASH_BUF) by (nonlinear_arith)
            requires
                q < FLASH_BUF / write_size,
                FLASH_BUF % write_size == 0,
                0 < write_size,
        ;
        (q + 1) * write_size
    };
    Some((buf, len))
}

/// What a commit stores is read back at boot: the flash image of a
/// canonical configuration (the staged configuration is kept canonical)
/// parses to that configuration.
pub proof fn lemma_image_reads_back(c: ConfigView)
    requires
        config_canon(c),
        serialize_of(c).len() <= FLASH_BUF,
    ensures
        parse_of(splice(Seq::new(FLASH_BUF as nat, |i: int| 0xffu8), 0, serialize_of(c))) == Some(c),
{
    let s = serialize_of(c);
    let img = splice(Seq::new(FLASH_BUF as nat, |i: int| 0xffu8), 0, s);
    assert(img.take(s.len() as int) =~= s);
    lemma_parse_prefix(c, img);
}

} // verus!
