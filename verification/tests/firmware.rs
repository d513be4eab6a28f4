use naginata::ble::{
    cccd_value, current_cccd, failure_state_for_disconnect, is_failure_state, restore_cccd,
    static_random_address, wl_led_step, BleAction, BleEvent, Session, BLE_CONNECTED,
    BLE_DISCONNECTED_AUTH, BLE_DISCONNECTED_OTHER, BLE_DISCONNECTED_REMOTE,
    BLE_DISCONNECTED_TIMEOUT, BLE_PAIRED, BLE_PAIR_FAILED, BLE_PAIR_STUCK,
    BLE_SECURITY_REQUEST_FAILED,
};
use naginata::ble_bond_store::{decode_bond, encode_bond, BondRecord, Security};
use naginata::board::{
    action_reports, build_direct, build_overlay, led_step, pack_pos, raw_position_keys,
    route_key, scale_rgb, shift_color, status_colors, LedState, Rgb,
};
use naginata::config::{parse, Config, OverrideVal, MAGIC};
use naginata::config_store::config_image;
use naginata::handedness::{hand_from_record, hand_page, sector_from_end, FLASH_SIZE};
use naginata::hid::KeyPress;
use naginata::keymap::Hand;
use naginata::matrix::Debouncer;
use naginata::split::{rx_step, Frame, KeyEvent};
use naginata::usb_hid::{release_report, report_for};
use naginata::{Action, Engine};

#[test]
fn report_for_one_key() {
    assert_eq!(report_for(KeyPress::new(0x04, 0x02)), [2, 0, 4, 0, 0, 0, 0, 0]);
    assert_eq!(release_report(), [0u8; 8]);
}

#[test]
fn hand_record_roundtrip() {
    let page = hand_page(Hand::Left);
    assert_eq!(&page[0..5], b"NGHDL");
    assert!(page[5..].iter().all(|&b| b == 0xff));
    let mut rec = [0u8; 5];
    rec.copy_from_slice(&page[0..5]);
    assert_eq!(hand_from_record(&rec), Some(Hand::Left));
    assert_eq!(hand_from_record(b"NGHDR"), Some(Hand::Right));
    assert_eq!(hand_from_record(b"NGHDX"), None);
    assert_eq!(hand_from_record(&[0xff; 5]), None);
    assert_eq!(sector_from_end(1, 4096) as usize, FLASH_SIZE - 4096);
    assert_eq!(sector_from_end(2, 4096), 2 * 1024 * 1024 - 8192);
}

#[test]
fn config_image_pads_and_rounds() {
    let cfg = Config::default();
    let (img, n) = config_image(&cfg, 256).unwrap();
    assert_eq!(img.len(), 3840);
    assert_eq!(&img[0..4], &MAGIC);
    assert_eq!(n, 256);
    assert_eq!(img[34], 0xff);
    assert_eq!(img[3839], 0xff);
    let (_, n1) = config_image(&cfg, 1).unwrap();
    assert_eq!(n1, 34);
}

#[test]
fn config_image_reads_back() {
    let mut cfg = Config::default();
    cfg.params.window_ms = 60;
    cfg.set_layer(0, 0x11, OverrideVal::kana("め").unwrap()).unwrap();
    cfg.set_combo2(0x23, 0x11, OverrideVal::keys(&[(0x28, 0)]).unwrap()).unwrap();
    let (img, n) = config_image(&cfg, 256).unwrap();
    assert_eq!(n, 256);
    // The whole sector image (IR, then erased bytes) reads back as written.
    assert_eq!(parse(&img), Some(cfg));
}

fn sample_bond() -> BondRecord {
    BondRecord {
        local_address: [1, 2, 3, 4, 5, 0xc1],
        peer_address: [9, 8, 7, 6, 5, 4],
        irk: Some([0x11; 16]),
        ltk: [0x22; 16],
        security: Security::EncryptedAuthenticated,
        bonded: true,
        cccd: [1, 0x0201, 0],
    }
}

#[test]
fn bond_record_roundtrip() {
    let rec = sample_bond();
    let page = encode_bond(&rec).unwrap();
    assert_eq!(&page[0..4], b"NGBD");
    assert_eq!(page[4], 3);
    assert_eq!(page[5], 0x03);
    assert_eq!(page[6], 2);
    assert_eq!(&page[51..57], &[1, 0, 1, 2, 0, 0]);
    let mut head = [0u8; 64];
    head.copy_from_slice(&page[0..64]);
    assert_eq!(decode_bond(&head), Some(rec));

    let mut no_irk = rec;
    no_irk.irk = None;
    no_irk.bonded = false;
    let page = encode_bond(&no_irk).unwrap();
    assert_eq!(page[5], 0);
    assert!(page[29..45].iter().all(|&b| b == 0xff));
    head.copy_from_slice(&page[0..64]);
    assert_eq!(decode_bond(&head), Some(no_irk));
}

#[test]
fn bond_record_rejections() {
    let mut rec = sample_bond();
    rec.security = Security::NoEncryption;
    assert!(encode_bond(&rec).is_none());

    let mut rec = sample_bond();
    rec.local_address = [1, 2, 3, 4, 5, 0x41]; // not a static random address
    let page = encode_bond(&rec).unwrap();
    let mut head = [0u8; 64];
    head.copy_from_slice(&page[0..64]);
    assert_eq!(decode_bond(&head), None);

    assert_eq!(decode_bond(&[0xff; 64]), None);
    let page = encode_bond(&sample_bond()).unwrap();
    head.copy_from_slice(&page[0..64]);
    head[6] = 0;
    assert_eq!(decode_bond(&head), None);
}

#[test]
fn debounce_needs_three_reads() {
    let mut d = Debouncer::new();
    assert_eq!(d.update(2, 5, true), None);
    assert_eq!(d.update(2, 5, true), None);
    assert_eq!(d.update(2, 5, true), Some(true));
    assert_eq!(d.update(2, 5, true), None);
    // a glitch is ignored
    assert_eq!(d.update(2, 5, false), None);
    assert_eq!(d.update(2, 5, true), None);
    assert_eq!(d.update(2, 5, false), None);
    assert_eq!(d.update(2, 5, false), None);
    assert_eq!(d.update(2, 5, false), Some(false));
}

#[test]
fn rx_resynchronizes() {
    let frame = KeyEvent { row: 3, col: 9, pressed: true }.encode();
    // a stray second byte is dropped
    assert_eq!(rx_step(None, frame[1]), (None, None));
    let (head, f) = rx_step(None, frame[0]);
    assert_eq!(head, Some(frame[0]));
    assert_eq!(f, None);
    let (head, f) = rx_step(head, frame[1]);
    assert_eq!(head, None);
    assert_eq!(f, Some(Frame::Key(KeyEvent { row: 3, col: 9, pressed: true })));
}

#[test]
fn packed_positions() {
    assert_eq!(pack_pos(Hand::Left, 0, 0), 0);
    assert_eq!(pack_pos(Hand::Right, 2, 3), 0x1023);
    assert_eq!(pack_pos(Hand::Left, 5, 13), 0x005d);
}

#[test]
fn led_colors() {
    assert_eq!(shift_color(0x02), Rgb { r: 40, g: 0, b: 0 });
    assert_eq!(shift_color(0x08), Rgb { r: 40, g: 32, b: 0 });
    assert_eq!(shift_color(0x01), Rgb { r: 0, g: 32, b: 40 });
    assert_eq!(shift_color(0x20), Rgb { r: 0, g: 0, b: 40 });
    assert_eq!(status_colors(true, 0), [Rgb { r: 0, g: 24, b: 0 }; 2]);
    assert_eq!(status_colors(false, 0), [Rgb { r: 0, g: 0, b: 24 }; 2]);
    assert_eq!(scale_rgb(Rgb { r: 40, g: 255, b: 0 }, 128), Rgb { r: 20, g: 128, b: 0 });
    assert_eq!(scale_rgb(Rgb { r: 40, g: 32, b: 7 }, 255), Rgb { r: 40, g: 32, b: 7 });
}

#[test]
fn led_latch_and_heartbeat() {
    let s = LedState::new();
    let (s, send, cols) = led_step(s, true, 0, 255);
    assert_eq!(send, Some(0)); // first tick sends
    assert_eq!(cols[0], Rgb { r: 0, g: 24, b: 0 });
    let (s, send, cols) = led_step(s, true, 0x02, 255);
    assert_eq!(send, Some(0x02));
    assert_eq!(cols[0], Rgb { r: 40, g: 0, b: 0 });
    // released: latched for three more ticks
    let (s, _, c1) = led_step(s, true, 0, 255);
    let (s, _, c2) = led_step(s, true, 0, 255);
    let (s, _, c3) = led_step(s, true, 0, 255);
    let (mut s, _, c4) = led_step(s, true, 0, 255);
    assert_eq!(c1[0], Rgb { r: 40, g: 0, b: 0 });
    assert_eq!(c2[0], Rgb { r: 40, g: 0, b: 0 });
    assert_eq!(c3[0], Rgb { r: 40, g: 0, b: 0 });
    assert_eq!(c4[0], Rgb { r: 0, g: 24, b: 0 });
    // heartbeat: unchanged state is sent again on the 25th tick
    let mut sends = 0;
    for _ in 0..25 {
        let (n, send, _) = led_step(s, true, 0, 255);
        s = n;
        if send.is_some() {
            sends += 1;
        }
    }
    assert_eq!(sends, 1);
    // the secondary never sends
    let (_, send, cols) = led_step(LedState::new(), false, 0, 255);
    assert_eq!(send, None);
    assert_eq!(cols[0], Rgb { r: 0, g: 0, b: 24 });
}

#[test]
fn overlay_from_config() {
    let mut cfg = Config::default();
    cfg.set_layer(0, 0x11, OverrideVal::kana("め").unwrap()).unwrap();
    cfg.set_combo2(0x23, 0x11, OverrideVal::keys(&[(0x28, 0)]).unwrap()).unwrap();
    cfg.set_mode(1, 0x24, OverrideVal::hold(4, 0)).unwrap();
    let ov = build_overlay(&cfg);
    assert_eq!(ov.find_layer(0, 0x11), Some(Action::Kana("め")));
    assert_eq!(ov.find_combo2(0x11, 0x23), Some(Action::Keys(&[KeyPress { usage: 0x28, modifiers: 0 }])));
    assert_eq!(ov.find_mode(1, 0x24), Some(Action::Undefined));
    assert_eq!(ov.find_layer(0, 0x12), None);
}

#[test]
fn direct_keys_from_config() {
    let mut cfg = Config::default();
    cfg.set_extra(1, 0, 6, OverrideVal::keys(&[(0x4c, 0)]).unwrap()).unwrap();
    let direct = build_direct(&cfg);
    assert_eq!(direct.len(), 1);
    assert_eq!(direct[0].0, pack_pos(Hand::Right, 0, 6));

    let mut engine = Engine::new();
    let mut out = Vec::new();
    // (0, 6) of the right half has no scan code in the layout: direct key
    let r = route_key(&mut engine, direct, true, Hand::Right, 0, 6, true, 0, &mut out);
    assert_eq!(r.last_key, Some(0x8000 | 0x1006));
    assert_eq!(r.shifts, None);
    assert_eq!(out, vec![Action::Keys(&[KeyPress { usage: 0x4c, modifiers: 0 }])]);
    // releases and the secondary do nothing
    let r = route_key(&mut engine, direct, true, Hand::Right, 0, 6, false, 5, &mut out);
    assert_eq!(r.last_key, None);
    let r = route_key(&mut engine, direct, false, Hand::Right, 0, 6, true, 5, &mut out);
    assert_eq!(r.last_key, None);
    assert_eq!(out.len(), 1);
}

#[test]
fn overlay_room_runs_out() {
    let mut cfg = Config::default();
    // 96 layer entries of 12 keys each need 1152 key presses; the room is 512
    for i in 0..96u8 {
        cfg.set_layer(1, i, OverrideVal::keys(&[(4, 0); 12]).unwrap()).unwrap();
    }
    let ov = build_overlay(&cfg);
    assert!(matches!(ov.find_layer(1, 0), Some(Action::Keys(k)) if k.len() == 12));
    assert!(matches!(ov.find_layer(1, 41), Some(Action::Keys(k)) if k.len() == 12));
    assert_eq!(ov.find_layer(1, 42), Some(Action::Undefined));
}

#[test]
fn reports_of_actions() {
    let r = action_reports(Action::Keys(&[KeyPress { usage: 0x06, modifiers: 0x01 }]));
    assert_eq!(r, vec![[1, 0, 6, 0, 0, 0, 0, 0], [0; 8]]);
    let r = action_reports(Action::Kana("か"));
    assert_eq!(r.len(), 4); // k, a
    assert_eq!(r[0][2], 0x0e);
    assert_eq!(r[2][2], 0x04);
    assert!(action_reports(Action::Undefined).is_empty());
}

#[test]
fn raw_position_text() {
    let mut keys = Vec::new();
    raw_position_keys(12, 3, &mut keys);
    // r 1 2 c 3 space
    let usages: Vec<u8> = keys.iter().map(|k| k.usage).collect();
    assert_eq!(usages, vec![0x15, 0x1e, 0x1f, 0x06, 0x20, 0x2c]);
}

#[test]
fn ble_failure_states() {
    assert_eq!(failure_state_for_disconnect(0x13), BLE_DISCONNECTED_REMOTE);
    assert_eq!(failure_state_for_disconnect(0x05), BLE_DISCONNECTED_AUTH);
    assert_eq!(failure_state_for_disconnect(0x06), BLE_DISCONNECTED_AUTH);
    assert_eq!(failure_state_for_disconnect(0x08), BLE_DISCONNECTED_TIMEOUT);
    assert_eq!(failure_state_for_disconnect(0x22), BLE_DISCONNECTED_TIMEOUT);
    assert_eq!(failure_state_for_disconnect(0x3e), BLE_DISCONNECTED_OTHER);
    assert!(is_failure_state(BLE_PAIR_FAILED));
    assert!(is_failure_state(BLE_DISCONNECTED_OTHER));
    assert!(!is_failure_state(BLE_PAIRED));
    assert!(!is_failure_state(BLE_CONNECTED));
    assert_eq!(wl_led_step(1, false), (true, 500));
    assert_eq!(wl_led_step(BLE_PAIRED, false), (true, 200));
    assert_eq!(wl_led_step(BLE_PAIR_STUCK, true), (false, 300));
    assert_eq!(wl_led_step(BLE_DISCONNECTED_AUTH, true), (false, 60));
    assert_eq!(wl_led_step(0, true), (false, 200));
    assert_eq!(static_random_address([1, 2, 3, 4, 5, 0x12]), [1, 2, 3, 4, 5, 0xd2]);
}

#[test]
fn ble_cccd_table() {
    let table = vec![(10u16, 1u16), (12, 2), (14, 0)];
    assert_eq!(cccd_value(&table, Some(12)), 2);
    assert_eq!(cccd_value(&table, Some(13)), 0);
    assert_eq!(cccd_value(&table, None), 0);
    assert_eq!(current_cccd(&table, [Some(10), None, Some(14)]), [1, 0, 0]);
    let mut t = table.clone();
    restore_cccd(&mut t, [Some(14), Some(10), None], [3, 4, 5]);
    assert_eq!(t, vec![(10, 4), (12, 2), (14, 3)]);
}

#[test]
fn ble_new_host_pairs() {
    let (mut s, a) = Session::connect(true, false, 1000, [0; 3]);
    assert!(matches!(a.as_slice(), [BleAction::RemoveBonds, BleAction::EraseStoredBond, BleAction::RequestSecurity { report_failure: true }]));
    assert_eq!(s.state, BLE_CONNECTED);
    assert_eq!(s.check_at, Some(1100));
    assert_eq!(s.fallback_at, None);
    let a = s.step(BleEvent::PairingComplete { has_bond: true, cccd: [1, 1, 0] }, 1200);
    assert!(matches!(a.as_slice(), [BleAction::RemoveBonds, BleAction::StoreNewBond([1, 1, 0])]));
    assert_eq!(s.state, BLE_PAIRED);
    assert!(s.bond_matches_peer);
    let a = s.step(BleEvent::Report { encrypted: true, report: [0; 8] }, 1300);
    assert!(matches!(a.as_slice(), [BleAction::Notify(_)]));
    // unchanged configuration is not stored again at disconnection
    let a = s.step(BleEvent::Disconnected { reason: 0x13, encrypted: true, peer_bond_stored: true, cccd: [1, 1, 0] }, 1400);
    assert!(matches!(a.as_slice(), [BleAction::End]));
    assert_eq!(s.state, BLE_PAIRED);
}

#[test]
fn ble_failures() {
    let (mut s, _) = Session::connect(false, false, 0, [0; 3]);
    s.security_request_failed(false);
    assert_eq!(s.state, BLE_SECURITY_REQUEST_FAILED);
    let a = s.step(BleEvent::PassKey, 10);
    assert!(matches!(a.as_slice(), [BleAction::CancelPassKey]));
    assert_eq!(s.state, BLE_PAIR_STUCK);
    let a = s.step(BleEvent::PairingFailed, 20);
    assert!(matches!(a.as_slice(), [BleAction::RemoveBonds, BleAction::EraseStoredBond]));
    assert_eq!(s.state, BLE_PAIR_FAILED);
    let a = s.step(BleEvent::Disconnected { reason: 0x05, encrypted: false, peer_bond_stored: false, cccd: [0; 3] }, 30);
    assert!(matches!(a.as_slice(), [BleAction::RemoveBonds, BleAction::EraseStoredBond, BleAction::End]));
    assert_eq!(s.state, BLE_DISCONNECTED_AUTH);
}

#[test]
fn ble_bonded_host_falls_back_to_pairing() {
    let (mut s, a) = Session::connect(true, true, 0, [1, 0, 0]);
    assert!(matches!(a.as_slice(), [BleAction::RestoreCccd]));
    assert_eq!(s.fallback_at, Some(2000));
    let a = s.step(BleEvent::ReadyCheck { encrypted: false }, 100);
    assert!(a.is_empty());
    assert_eq!(s.check_at, Some(200));
    let a = s.step(BleEvent::ReadyCheck { encrypted: false }, 2000);
    assert!(matches!(a.as_slice(), [BleAction::RemoveBonds, BleAction::EraseStoredBond, BleAction::RequestSecurity { report_failure: false }]));
    assert!(!s.bond_matches_peer);
    assert_eq!(s.fallback_at, None);
}

#[test]
fn ble_bonded_host_becomes_ready() {
    let (mut s, _) = Session::connect(true, true, 0, [1, 0, 0]);
    let a = s.step(BleEvent::Gatt { encrypted: true, peer_bond_stored: true, cccd: [1, 1, 0] }, 50);
    assert!(matches!(a.as_slice(), [BleAction::StorePeerBond([1, 1, 0])]));
    assert_eq!(s.state, BLE_PAIRED);
    assert_eq!(s.saved_cccd, [1, 1, 0]);
    let a = s.step(BleEvent::ReadyCheck { encrypted: true }, 100);
    assert!(a.is_empty());
    assert_eq!(s.check_at, None);
}
