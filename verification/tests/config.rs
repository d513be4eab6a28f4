use naginata::config::{
    parse, pseudo, serialize, Config, OverrideVal, MAGIC, PFLAG_PASS_IME, SEC_CUSTOM, TAG_HOLD,
};

#[test]
fn roundtrip_empty() {
    let cfg = Config::default();
    let mut buf = [0u8; 256];
    let n = serialize(&cfg, &mut buf).unwrap();
    assert_eq!(parse(&buf[0..n]).unwrap(), cfg);
}

#[test]
fn roundtrip_all_sections() {
    let mut cfg = Config::default();
    cfg.params.window_ms = 55;
    cfg.params.led_brightness = 80;
    cfg.set_layer(0, 0x11, OverrideVal::kana("め").unwrap()).unwrap();
    cfg.set_layer(0x01, 0x16, OverrideVal::kana("ＸＸ").unwrap()).unwrap();
    cfg.set_layer(0x01, 0x2f, OverrideVal::keys(&[(0x28, 0)]).unwrap()).unwrap();
    cfg.set_combo2(0x11, 0x23, OverrideVal::kana("きゃ").unwrap()).unwrap();
    cfg.set_combo3(0x32, 0x12, 0x25, OverrideVal::kana("てぃ").unwrap()).unwrap();
    cfg.set_mode(1, 0x24, OverrideVal::keys(&[(0x51, 0)]).unwrap()).unwrap();
    let mut buf = [0u8; 1024];
    let n = serialize(&cfg, &mut buf).unwrap();
    let back = parse(&buf[0..n]).unwrap();
    assert_eq!(back, cfg);
    assert_eq!(back.find_layer(0x01, 0x16), Some(&OverrideVal::kana("ＸＸ").unwrap()));
    assert_eq!(back.find_combo2(0x23, 0x11), back.find_combo2(0x11, 0x23));
    assert_eq!(back.find_mode(1, 0x24), Some(&OverrideVal::keys(&[(0x51, 0)]).unwrap()));
}

#[test]
fn set_replace_and_remove() {
    let mut cfg = Config::default();
    cfg.set_layer(0, 0x11, OverrideVal::kana("め").unwrap()).unwrap();
    cfg.set_layer(0, 0x11, OverrideVal::kana("も").unwrap()).unwrap();
    assert_eq!(cfg.layers.len(), 1);
    assert_eq!(cfg.find_layer(0, 0x11), Some(&OverrideVal::kana("も").unwrap()));
    cfg.remove_layer(0, 0x11);
    assert_eq!(cfg.find_layer(0, 0x11), None);
    assert_eq!(cfg.layers.len(), 0);
}

#[test]
fn parse_rejects_bad_magic() {
    let mut buf = [0u8; 32];
    buf[0..4].copy_from_slice(b"XXXX");
    assert!(parse(&buf).is_none());
}

#[test]
fn parse_rejects_v1() {
    let mut buf = [0u8; 32];
    buf[0..4].copy_from_slice(&MAGIC);
    buf[4] = 1;
    assert!(parse(&buf).is_none());
}

#[test]
fn parse_rejects_corrupt_crc() {
    let cfg = Config::default();
    let mut buf = [0u8; 256];
    let n = serialize(&cfg, &mut buf).unwrap();
    buf[5] ^= 0xff;
    assert!(parse(&buf[0..n]).is_none());
}

#[test]
fn serialize_reports_buffer_too_small() {
    let mut cfg = Config::default();
    cfg.set_layer(0, 0x11, OverrideVal::kana("め").unwrap()).unwrap();
    let mut buf = [0u8; 8];
    assert!(serialize(&cfg, &mut buf).is_none());
}

#[test]
fn roundtrip_extra() {
    let mut cfg = Config::default();
    cfg.set_extra(0, 0, 0, OverrideVal::keys(&[(0x3a, 0)]).unwrap()).unwrap();
    cfg.set_extra(1, 0, 6, OverrideVal::keys(&[(0x4c, 0)]).unwrap()).unwrap();
    cfg.set_extra(0, 1, 0, OverrideVal::kana("マ").unwrap()).unwrap();
    let mut buf = [0u8; 512];
    let n = serialize(&cfg, &mut buf).unwrap();
    let back = parse(&buf[0..n]).unwrap();
    assert_eq!(back, cfg);
    assert_eq!(back.find_extra(1, 0, 6), Some(&OverrideVal::keys(&[(0x4c, 0)]).unwrap()));
    cfg.remove_extra(1, 0, 6);
    assert_eq!(cfg.find_extra(1, 0, 6), None);
}

#[test]
fn roundtrip_hold_and_flags() {
    let mut cfg = Config::default();
    cfg.params.flags = PFLAG_PASS_IME;
    cfg.set_extra(0, 0, 1, OverrideVal::hold(0xe1, 0)).unwrap();
    cfg.set_extra(1, 0, 2, OverrideVal::keys(&[(pseudo::MO_PASS, 0)]).unwrap()).unwrap();
    let mut buf = [0u8; 256];
    let n = serialize(&cfg, &mut buf).unwrap();
    let back = parse(&buf[0..n]).unwrap();
    assert_eq!(back, cfg);
    assert_eq!(back.params.flags, PFLAG_PASS_IME);
    assert_eq!(back.find_extra(0, 0, 1), Some(&OverrideVal::Hold((0xe1, 0))));
}

#[test]
fn roundtrip_custom_layers() {
    let mut cfg = Config::default();
    cfg.set_custom(1, 0x10, OverrideVal::keys(&[(0x35, 0)]).unwrap()).unwrap();
    cfg.set_custom(1, 0x11, OverrideVal::keys(&[(0x1e, 2)]).unwrap()).unwrap();
    cfg.set_custom(7, 0x39, OverrideVal::keys(&[(pseudo::TG_BASE | 7, 0)]).unwrap()).unwrap();
    let mut buf = [0u8; 512];
    let n = serialize(&cfg, &mut buf).unwrap();
    let back = parse(&buf[0..n]).unwrap();
    assert_eq!(back, cfg);
    assert_eq!(back.find_custom(1, 0x10), Some(&OverrideVal::keys(&[(0x35, 0)]).unwrap()));
    assert_eq!(back.find_custom(2, 0x10), None);
    assert!(cfg.set_custom(8, 0x10, OverrideVal::keys(&[(0x04, 0)]).unwrap()).is_err());
}

#[test]
fn custom_empty_keeps_v2_layout() {
    let cfg = Config::default();
    let mut buf = [0u8; 256];
    let n = serialize(&cfg, &mut buf).unwrap();
    assert!(!buf[..n].windows(3).any(|w| w == [SEC_CUSTOM, 0, 0]));
}

#[test]
fn decode_rejects_bad_hold_len() {
    let buf = [TAG_HOLD, 4, 0xe0, 0, 0xe1, 0];
    assert!(OverrideVal::decode(&buf, 0).is_none());
}

#[test]
fn keys_roundtrip_multi() {
    let mut cfg = Config::default();
    cfg.set_mode(2, 0x27, OverrideVal::keys(&[(0x4f, 0x02); 12]).unwrap()).unwrap();
    let mut buf = [0u8; 256];
    let n = serialize(&cfg, &mut buf).unwrap();
    assert_eq!(parse(&buf[0..n]).unwrap(), cfg);
}

// Further cases.

#[test]
fn serialize_empty_is_exact_bytes() {
    let cfg = Config::default();
    let mut buf = [0u8; 64];
    let n = serialize(&cfg, &mut buf).unwrap();
    // header (16) + five empty sections (3 each) + end marker + checksum
    assert_eq!(n, 16 + 15 + 1 + 2);
    assert_eq!(&buf[0..4], &MAGIC);
    assert_eq!(buf[4], 2);
    assert_eq!(&buf[16..19], &[1, 0, 0]);
    assert_eq!(buf[31], 0);
}

#[test]
fn kana_too_long_is_refused() {
    assert!(OverrideVal::kana("あいう").is_err()); // 9 bytes
    assert!(OverrideVal::kana("あい").is_ok()); // 6 bytes
}

#[test]
fn keys_too_many_is_refused() {
    assert!(OverrideVal::keys(&[(4, 0); 13]).is_err());
}

#[test]
fn combo3_found_in_any_order() {
    let mut cfg = Config::default();
    cfg.set_combo3(0x32, 0x12, 0x25, OverrideVal::kana("てぃ").unwrap()).unwrap();
    assert_eq!(cfg.combo3[0].0, [0x12, 0x25, 0x32]);
    assert_eq!(cfg.find_combo3(0x25, 0x32, 0x12), Some(&OverrideVal::kana("てぃ").unwrap()));
}

#[test]
fn set_fails_when_section_full() {
    let mut cfg = Config::default();
    for i in 0..24u8 {
        cfg.set_combo2(i, 100, OverrideVal::hold(4, 0)).unwrap();
    }
    assert!(cfg.set_combo2(50, 100, OverrideVal::hold(4, 0)).is_err());
    // replacing an existing key still works when full
    assert!(cfg.set_combo2(100, 3, OverrideVal::hold(5, 0)).is_ok());
}

#[test]
fn decode_value_kinds_and_errors() {
    let buf = [1u8, 4, 0x04, 0x02, 0x05, 0x00];
    let (v, next) = OverrideVal::decode(&buf, 0).unwrap();
    assert_eq!(v, OverrideVal::keys(&[(0x04, 0x02), (0x05, 0)]).unwrap());
    assert_eq!(next, 6);
    assert!(OverrideVal::decode(&[1u8, 3, 1, 2, 3], 0).is_none()); // odd key payload
    assert!(OverrideVal::decode(&[9u8, 0], 0).is_none()); // unknown tag
    assert!(OverrideVal::decode(&[0u8, 2, 0xff, 0xfe], 0).is_none()); // not UTF-8
    assert!(OverrideVal::decode(&[0u8, 3, 0x61], 0).is_none()); // does not fit
}

#[test]
fn parse_rejects_unknown_section_with_entries() {
    let cfg = Config::default();
    let mut buf = [0u8; 64];
    let n = serialize(&cfg, &mut buf).unwrap();
    assert!(parse(&buf[0..n]).is_some());
    buf[16] = 9;
    assert!(parse(&buf[0..n]).is_none());
}
