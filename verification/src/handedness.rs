//! Which half a board is, stored in flash so that both halves run the same
//! image: the last 4 KiB sector holds "NGHD" and 'L' or 'R'. It is written
//! once, when the half is provisioned.
use vstd::prelude::*;

use crate::keymap::Hand;

verus! {

/// Size of the QSPI flash of a Pico / Pico W (2 MiB).
pub const FLASH_SIZE: usize = 2 * 1024 * 1024;
/// Magic of the hand record.
pub const HAND_MAGIC: [u8; 4] = [0x4e, 0x47, 0x48, 0x44];
/// Length of the hand record.
pub const HAND_RECORD_LEN: usize = 5;
/// Length of the page written for it.
pub const HAND_PAGE_LEN: usize = 256;

/// Offset of the `n`-th sector from the end of flash (`n` from 1).
pub fn sector_from_end(n: usize, erase_size: usize) -> (r: u32)
    requires
        n * erase_size <= FLASH_SIZE,
    ensures
        r == FLASH_SIZE - n * erase_size,
{
    (FLASH_SIZE - n * erase_size) as u32
}

/// The byte that stands for a hand.
pub open spec fn hand_byte(hand: Hand) -> u8 {
    match hand {
        Hand::Left => 0x4c,  // 'L'
        Hand::Right => 0x52,  // 'R'
    }
}

/// The page written for a hand: magic, hand byte, erased (0xFF) after.
pub open spec fn hand_page_of(hand: Hand) -> Seq<u8> {
    HAND_MAGIC@ + seq![hand_byte(hand)] + Seq::new(251, |i: int| 0xffu8)
}

/// The hand a record holds: `None` without the magic or with another byte.
pub open spec fn hand_of_record(b: Seq<u8>) -> Option<Hand> {
    if b.subrange(0, 4) != HAND_MAGIC@ {
        None
    } else if b[4] == 0x4c {
        Some(Hand::Left)
    } else if b[4] == 0x52 {
        Some(Hand::Right)
    } else {
        None
    }
}

/// The page to write for `hand`.
pub fn hand_page(hand: Hand) -> (r: [u8; HAND_PAGE_LEN])
    ensures
        r@ == hand_page_of(hand),
{
    let mut page = [0xffu8; HAND_PAGE_LEN];
    page[0] = HAND_MAGIC[0];
    page[1] = HAND_MAGIC[1];
    page[2] = HAND_MAGIC[2];
    page[3] = HAND_MAGIC[3];
    page[4] = match hand {
        Hand::Left => 0x4c,
        Hand::Right => 0x52,
    };
    assert(page@ =~= hand_page_of(hand));
    page
}

/// The hand stored in a record, if it is one.
pub fn hand_from_record(buf: &[u8; HAND_RECORD_LEN]) -> (r: Option<Hand>)
    ensures
        r == hand_of_record(buf@),
{
    if buf[0] != HAND_MAGIC[0] || buf[1] != HAND_MAGIC[1] || buf[2] != HAND_MAGIC[2] || buf[3]
        != HAND_MAGIC[3] {
        proof {
            if buf@.subrange(0, 4) == HAND_MAGIC@ {
                assert(buf@.subrange(0, 4)[0] == buf@[0]);
                assert(buf@.subrange(0, 4)[1] == buf@[1]);
                assert(buf@.subrange(0, 4)[2] == buf@[2]);
                assert(buf@.subrange(0, 4)[3] == buf@[3]);
            }
        }
        return None;
    }
    assert(buf@.subrange(0, 4) =~= HAND_MAGIC@);
    if buf[4] == 0x4c {
        Some(Hand::Left)
    } else if buf[4] == 0x52 {
        Some(Hand::Right)
    } else {
        None
    }
}

/// A hand survives being written and read back.
pub proof fn lemma_hand_roundtrip(hand: Hand)
    ensures
        hand_of_record(hand_page_of(hand).take(5)) == Some(hand),
{
    let b = hand_page_of(hand).take(5);
    assert(b.subrange(0, 4) =~= HAND_MAGIC@);
}

} // verus!
