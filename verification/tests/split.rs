use naginata::split::{decode, encode_status, Frame, KeyEvent};

#[test]
fn key_roundtrip() {
    let e = KeyEvent { row: 5, col: 13, pressed: true };
    let [a, b] = e.encode();
    assert_eq!(decode(a, b), Some(Frame::Key(e)));
}

#[test]
fn status_roundtrip() {
    let [a, b] = encode_status(0x2d);
    assert_eq!(decode(a, b), Some(Frame::Status(0x2d)));
}

#[test]
fn decode_without_sync_is_none() {
    assert_eq!(decode(0x05, 0x01), None);
}

#[test]
fn key_frame_bytes() {
    let e = KeyEvent { row: 2, col: 7, pressed: false };
    assert_eq!(e.encode(), [0x82, 0x07]);
    assert_eq!(encode_status(0xff), [0xc0, 0x3f]);
}
