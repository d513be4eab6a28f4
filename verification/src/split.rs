//! Serial link between the two halves: two-byte self-synchronizing frames.
//! Only the first byte has bit 7 set (sync).
//!   b0: [7]=sync(1) [6]=type(0=Key, 1=Status) [5]=pressed (Key) [2:0]=row (Key)
//!   b1: bit 7 = 0. Key: [3:0]=col; Status: [5:0]=shift mask
//! The receiver waits for a byte with bit 7 set to find a frame head; frames
//! that fail to decode are dropped and it resynchronizes.
use vstd::prelude::*;

verus! {

/// One key event sent from the secondary half to the master.
#[derive(Clone, Copy, Debug, PartialEq, Eq, Structural)]
pub struct KeyEvent {
    pub row: u8,
    pub col: u8,
    pub pressed: bool,
}

/// A decoded frame.
#[derive(Clone, Copy, Debug, PartialEq, Eq, Structural)]
pub enum Frame {
    /// Key event (secondary to master).
    Key(KeyEvent),
    /// Shift state (master to secondary, for its status LED).
    Status(u8),
}

pub const SYNC: u8 = 0x80;
pub const TYPE_STATUS: u8 = 0x40;
pub const PRESSED: u8 = 0x20;

/// Frame of a key event: row in three bits, column in four.
pub open spec fn key_frame(e: KeyEvent) -> (u8, u8) {
    (
        (128 + (if e.pressed { 32int } else { 0int }) + e.row % 8) as u8,
        (e.col % 16) as u8,
    )
}

/// Frame of a shift state: the mask in six bits.
pub open spec fn status_frame(mask: u8) -> (u8, u8) {
    ((128 + 64) as u8, (mask % 64) as u8)
}

/// Decoding: no frame without the sync bit; else a status or a key event.
pub open spec fn decode_of(b0: u8, b1: u8) -> Option<Frame> {
    if b0 < 128 {
        None
    } else if (b0 / 64) % 2 == 1 {
        Some(Frame::Status((b1 % 64) as u8))
    } else {
        Some(
            Frame::Key(
                KeyEvent { pressed: (b0 / 32) % 2 == 1, row: (b0 % 8) as u8, col: (b1 % 16) as u8 },
            ),
        )
    }
}

impl KeyEvent {
    pub fn encode(&self) -> (r: [u8; 2])
        ensures
            (r@[0], r@[1]) == key_frame(*self),
    {
        let p: u8 = if self.pressed {
            PRESSED
        } else {
            0
        };
        let row = self.row;
        let col = self.col;
        let b0: u8 = SYNC | p | (row & 0x07);
        let b1: u8 = col & 0x0f;
        assert(b0 == 128 + p + row % 8 && b1 == col % 16) by (bit_vector)
            requires
                b0 == 0x80u8 | p | (row & 0x07),
                b1 == col & 0x0f,
                p == 0x20 || p == 0,
        ;
        [b0, b1]
    }
}

/// Status frame (the shift mask has six bits).
pub fn encode_status(mask: u8) -> (r: [u8; 2])
    ensures
        (r@[0], r@[1]) == status_frame(mask),
{
    let b1: u8 = mask & 0x3f;
    assert(b1 == mask % 64) by (bit_vector)
        requires
            b1 == mask & 0x3f,
    ;
    let b0: u8 = SYNC | TYPE_STATUS;
    assert(b0 == 192) by (bit_vector)
        requires
            b0 == 0x80u8 | 0x40u8,
    ;
    [b0, b1]
}

/// Decodes two bytes; `None` when the first lacks the sync bit (resynchronize).
pub fn decode(b0: u8, b1: u8) -> (r: Option<Frame>)
    ensures
        r == decode_of(b0, b1),
{
    assert((b0 & 0x80 == 0) == (b0 < 128) && (b0 & 0x40 != 0) == ((b0 / 64) % 2 == 1) && (b0
        & 0x20 != 0) == ((b0 / 32) % 2 == 1) && (b0 & 0x07) == b0 % 8 && (b1 & 0x3f) == b1 % 64
        && (b1 & 0x0f) == b1 % 16) by (bit_vector);
    if b0 & SYNC == 0 {
        return None;
    }
    if b0 & TYPE_STATUS != 0 {
        Some(Frame::Status(b1 & 0x3f))
    } else {
        Some(Frame::Key(KeyEvent { pressed: b0 & PRESSED != 0, row: b0 & 0x07, col: b1 & 0x0f }))
    }
}

/// A key event frame decodes back to the event (row in three bits, column
/// in four); its first byte carries the sync bit and its second does not.
pub proof fn lemma_key_frame_roundtrip(e: KeyEvent)
    ensures
        key_frame(e).0 >= 128,
        key_frame(e).1 < 128,
        decode_of(key_frame(e).0, key_frame(e).1) == Some(
            Frame::Key(KeyEvent { row: (e.row % 8) as u8, col: (e.col % 16) as u8, pressed: e.pressed }),
        ),
{
}

/// A status frame decodes back to the six-bit mask; its second byte lacks
/// the sync bit.
pub proof fn lemma_status_frame_roundtrip(mask: u8)
    ensures
        status_frame(mask).1 < 128,
        decode_of(status_frame(mask).0, status_frame(mask).1) == Some(
            Frame::Status((mask % 64) as u8),
        ),
{
}

/// The receiver's step on one byte. Without a pending head byte, a byte
/// with the sync bit becomes the head and any other is dropped; with one,
/// the byte completes the frame, which is decoded.
pub open spec fn rx_step_of(head: Option<u8>, byte: u8) -> (Option<u8>, Option<Frame>) {
    match head {
        None => if byte >= 128 {
            (Some(byte), None)
        } else {
            (None, None)
        },
        Some(b0) => (None, decode_of(b0, byte)),
    }
}

/// Feeds one received byte; returns the new pending head and a decoded frame.
pub fn rx_step(head: Option<u8>, byte: u8) -> (r: (Option<u8>, Option<Frame>))
    ensures
        r == rx_step_of(head, byte),
{
    match head {
        None => {
            assert((byte & 0x80 != 0) == (byte >= 128)) by (bit_vector);
            if byte & SYNC != 0 {
                (Some(byte), None)
            } else {
                (None, None)
            }
        },
        Some(b0) => (None, decode(b0, byte)),
    }
}

/// A receiver between frames reads a key event frame back as the event,
/// and one that lost sync finds the next frame: a stray second byte is
/// dropped since it lacks the sync bit.
pub proof fn lemma_rx_key_frame(e: KeyEvent)
    ensures
        ({
            let (b0, b1) = key_frame(e);
            let (h1, f1) = rx_step_of(None, b0);
            let (h2, f2) = rx_step_of(h1, b1);
            &&& f1 is None && h2 is None
            &&& f2 == Some(Frame::Key(KeyEvent { row: (e.row % 8) as u8, col: (e.col % 16) as u8, pressed: e.pressed }))
            &&& rx_step_of(None, b1) == (None::<u8>, None::<Frame>)
        }),
{
}

} // verus!
