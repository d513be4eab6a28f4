use naginata::hid::{ascii_to_hid, modifier_bit, romaji_to_hid, sc_to_usage, KeyPress};

#[test]
fn letters() {
    assert_eq!(ascii_to_hid('a'), Some(KeyPress::new(0x04, 0)));
    assert_eq!(ascii_to_hid('z'), Some(KeyPress::new(0x1d, 0)));
    assert_eq!(ascii_to_hid('-'), Some(KeyPress::new(0x2d, 0)));
}

#[test]
fn sequence() {
    let mut keys: Vec<KeyPress> = Vec::new();
    romaji_to_hid("kya", &mut keys);
    let v: Vec<u8> = keys.iter().map(|k| k.usage).collect();
    assert_eq!(v, vec![0x0e, 0x1c, 0x04]);
}

#[test]
fn passthrough_sc_to_usage() {
    assert_eq!(sc_to_usage(0x10), Some(0x14));
    assert_eq!(sc_to_usage(0x32), Some(0x10));
    assert_eq!(sc_to_usage(0x39), Some(0x2c));
    assert_eq!(sc_to_usage(0x02), Some(0x1e));
    assert_eq!(sc_to_usage(0x0b), Some(0x27));
    assert_eq!(sc_to_usage(0x3b), Some(0x3a));
    assert_eq!(sc_to_usage(0x58), Some(0x45));
    assert_eq!(sc_to_usage(0x2a), Some(0xe1));
    assert_eq!(sc_to_usage(0x37), None);
}

#[test]
fn modifier_bits() {
    assert_eq!(modifier_bit(0xe0), Some(0x01));
    assert_eq!(modifier_bit(0xe1), Some(0x02));
    assert_eq!(modifier_bit(0xe5), Some(0x20));
    assert_eq!(modifier_bit(0x04), None);
}

#[test]
fn ascii_upper_digits_space() {
    assert_eq!(ascii_to_hid('A'), Some(KeyPress::new(0x04, 0x02)));
    assert_eq!(ascii_to_hid('1'), Some(KeyPress::new(0x1e, 0)));
    assert_eq!(ascii_to_hid('9'), Some(KeyPress::new(0x26, 0)));
    assert_eq!(ascii_to_hid('0'), Some(KeyPress::new(0x27, 0)));
    assert_eq!(ascii_to_hid(' '), Some(KeyPress::new(0x2c, 0)));
    assert_eq!(ascii_to_hid('あ'), None);
    assert_eq!(KeyPress::plain(0x28), KeyPress::new(0x28, 0));
}

#[test]
fn romaji_to_hid_skips_unknown_and_appends() {
    let mut keys = vec![KeyPress::plain(0x99)];
    romaji_to_hid("a!b", &mut keys);
    assert_eq!(keys, vec![KeyPress::plain(0x99), KeyPress::plain(0x04), KeyPress::plain(0x05)]);
}
