use naginata::config::{Config, OverrideVal, PFLAG_PASS_IME, TAG_KANA, TAG_KEYS};
use naginata::layout::{COMBO2, COMBO3, LAYERS, MATRIX_LEFT, MATRIX_RIGHT, MODE_LAYERS};
use naginata::usb_config::{
    flash_op, handle_command, FlashOp, CMD_COMMIT, CMD_INFO, CMD_READ_DEFAULTS,
    CMD_READ_LASTKEY, CMD_READ_MATRIX, CMD_READ_OVERRIDES, CMD_READ_PARAMS, CMD_REBOOT,
    CMD_RESET, CMD_WRITE, CMD_WRITE_PARAMS, REPORT_LEN, SEC_COMBO2, SEC_EXTRA, SEC_LAYERS,
    ST_ERR, ST_OK, ST_UNKNOWN,
};

fn cmd(bytes: &[u8]) -> [u8; REPORT_LEN] {
    let mut b = [0u8; REPORT_LEN];
    b[..bytes.len()].copy_from_slice(bytes);
    b
}

#[test]
fn info_reports_versions_and_table_sizes() {
    let mut cfg = Config::default();
    let o = handle_command(&cmd(&[CMD_INFO, 7]), &mut cfg, true, 0);
    assert_eq!(&o.resp[0..8], &[CMD_INFO, 7, ST_OK, 2, 0, 2, 12, 8]);
    assert_eq!(o.resp[8] as usize + 256 * o.resp[9] as usize, LAYERS.len());
    assert_eq!(o.resp[10] as usize, COMBO2.len());
    assert_eq!(o.resp[12] as usize, COMBO3.len());
    assert_eq!(o.resp[14] as usize, MODE_LAYERS.len());
    assert!(o.resp[16..].iter().all(|&b| b == 0));
    assert!(!o.reboot);
}

#[test]
fn write_then_read_overrides() {
    let mut cfg = Config::default();
    // layer (mask 1, sc 0x16) = kana "め"
    let w = cmd(&[CMD_WRITE, 1, SEC_LAYERS, 0x01, 0x16, TAG_KANA, 3, 0xe3, 0x82, 0x81]);
    let o = handle_command(&w, &mut cfg, true, 0);
    assert_eq!(o.resp[2], ST_OK);
    assert_eq!(cfg.find_layer(1, 0x16), Some(&OverrideVal::kana("め").unwrap()));
    let o = handle_command(&cmd(&[CMD_READ_OVERRIDES, 2, SEC_LAYERS, 0, 0]), &mut cfg, true, 0);
    assert_eq!(o.resp[3], SEC_LAYERS);
    assert_eq!(&o.resp[4..7], &[1, 0, 1]); // next 1, count 1
    assert_eq!(&o.resp[7..14], &[0x01, 0x16, TAG_KANA, 3, 0xe3, 0x82, 0x81]);
    // removing: value length 0
    let o = handle_command(&cmd(&[CMD_WRITE, 3, SEC_LAYERS, 0x01, 0x16, TAG_KANA, 0]), &mut cfg, true, 0);
    assert_eq!(o.resp[2], ST_OK);
    assert_eq!(cfg.layers.len(), 0);
}

#[test]
fn write_errors() {
    let mut cfg = Config::default();
    // unknown section
    let o = handle_command(&cmd(&[CMD_WRITE, 1, 9, 0, 0, TAG_KEYS, 2, 4, 0]), &mut cfg, true, 0);
    assert_eq!(o.resp[2], ST_ERR);
    // odd key payload
    let o = handle_command(&cmd(&[CMD_WRITE, 1, SEC_LAYERS, 0, 1, TAG_KEYS, 3, 4, 0, 5]), &mut cfg, true, 0);
    assert_eq!(o.resp[2], ST_ERR);
    assert_eq!(cfg, Config::default());
}

#[test]
fn combo_and_direct_writes() {
    let mut cfg = Config::default();
    let o = handle_command(&cmd(&[CMD_WRITE, 1, SEC_COMBO2, 0x23, 0x11, TAG_KEYS, 2, 0x28, 0]), &mut cfg, true, 0);
    assert_eq!(o.resp[2], ST_OK);
    assert_eq!(cfg.combo2[0].0, [0x11, 0x23]);
    let o = handle_command(&cmd(&[CMD_WRITE, 1, SEC_EXTRA, 1, 0, 6, TAG_KEYS, 2, 0x4c, 0]), &mut cfg, true, 0);
    assert_eq!(o.resp[2], ST_OK);
    assert_eq!(cfg.find_extra(1, 0, 6), Some(&OverrideVal::keys(&[(0x4c, 0)]).unwrap()));
    let o = handle_command(&cmd(&[CMD_READ_OVERRIDES, 2, SEC_EXTRA, 0, 0]), &mut cfg, true, 0);
    assert_eq!(&o.resp[4..7], &[1, 0, 1]);
    assert_eq!(&o.resp[7..14], &[1, 0, 6, TAG_KEYS, 2, 0x4c, 0]);
}

#[test]
fn read_defaults_pages() {
    let mut cfg = Config::default();
    let o = handle_command(&cmd(&[CMD_READ_DEFAULTS, 1, SEC_LAYERS, 0, 0]), &mut cfg, true, 0);
    assert_eq!(o.resp[3], SEC_LAYERS);
    let count = o.resp[6] as usize;
    assert!(count > 0);
    let next = o.resp[4] as usize + 256 * o.resp[5] as usize;
    assert_eq!(next, count);
    // the first entry: key of the first table entry, then its value
    let (k, _) = LAYERS[0];
    assert_eq!(o.resp[7], (k >> 8) as u8);
    assert_eq!(o.resp[8], (k & 0xff) as u8);
    // the next page starts where this one ended
    let o2 = handle_command(&cmd(&[CMD_READ_DEFAULTS, 1, SEC_LAYERS, next as u8, 0]), &mut cfg, true, 0);
    let (k2, _) = LAYERS[next];
    assert_eq!(o2.resp[7], (k2 >> 8) as u8);
    assert_eq!(o2.resp[8], (k2 & 0xff) as u8);
    // past the end: no entries
    let o3 = handle_command(&cmd(&[CMD_READ_DEFAULTS, 1, SEC_LAYERS, 200, 0]), &mut cfg, true, 0);
    assert_eq!(&o3.resp[4..7], &[200, 0, 0]);
    // direct keys have no defaults
    let o4 = handle_command(&cmd(&[CMD_READ_DEFAULTS, 1, SEC_EXTRA, 0, 0]), &mut cfg, true, 0);
    assert_eq!(&o4.resp[3..7], &[SEC_EXTRA, 0, 0, 0]);
}

#[test]
fn read_matrix_pages() {
    let mut cfg = Config::default();
    let o = handle_command(&cmd(&[CMD_READ_MATRIX, 1, 0, 0]), &mut cfg, true, 0);
    assert_eq!(o.resp[6], 14); // (64 - 7) / 4 entries fit
    let (pos, sc) = MATRIX_LEFT[0];
    assert_eq!(&o.resp[7..11], &[0, pos >> 4, pos & 0x0f, sc]);
    let o = handle_command(&cmd(&[CMD_READ_MATRIX, 1, 16, 0]), &mut cfg, true, 0);
    let (pos, sc) = MATRIX_RIGHT[0];
    assert_eq!(&o.resp[7..11], &[1, pos >> 4, pos & 0x0f, sc]);
}

#[test]
fn params_read_and_write_keep_flags() {
    let mut cfg = Config::default();
    cfg.params.flags = PFLAG_PASS_IME;
    let o = handle_command(&cmd(&[CMD_WRITE_PARAMS, 1, 50, 0, 0x2c, 0x01, 100, 0, 20, 0, 99]), &mut cfg, true, 0);
    assert_eq!(o.resp[2], ST_OK);
    assert_eq!(cfg.params.window_ms, 50);
    assert_eq!(cfg.params.tap_ms, 300);
    assert_eq!(cfg.params.repeat_delay_ms, 100);
    assert_eq!(cfg.params.repeat_interval_ms, 20);
    assert_eq!(cfg.params.led_brightness, 99);
    assert_eq!(cfg.params.flags, PFLAG_PASS_IME);
    let o = handle_command(&cmd(&[CMD_READ_PARAMS, 2]), &mut cfg, true, 0);
    assert_eq!(&o.resp[3..12], &[50, 0, 0x2c, 0x01, 100, 0, 20, 0, 99]);
}

#[test]
fn last_key_is_reported_once() {
    let mut cfg = Config::default();
    let o = handle_command(&cmd(&[CMD_READ_LASTKEY, 1]), &mut cfg, true, 0x8000 | 0x1025);
    assert_eq!(&o.resp[3..7], &[1, 2, 5, 1]);
    assert!(o.clear_last_key);
    let o = handle_command(&cmd(&[CMD_READ_LASTKEY, 1]), &mut cfg, true, 0x1025);
    assert_eq!(&o.resp[3..7], &[1, 2, 5, 0]);
    assert!(!o.clear_last_key);
}

#[test]
fn flash_commands() {
    let mut cfg = Config::default();
    cfg.set_layer(0, 0x11, OverrideVal::kana("め").unwrap()).unwrap();
    assert_eq!(flash_op(&cmd(&[CMD_COMMIT])), FlashOp::WriteConfig);
    assert_eq!(flash_op(&cmd(&[CMD_RESET])), FlashOp::EraseConfig);
    assert_eq!(flash_op(&cmd(&[CMD_INFO])), FlashOp::Nothing);
    let o = handle_command(&cmd(&[CMD_COMMIT, 1]), &mut cfg, false, 0);
    assert_eq!(o.resp[2], ST_ERR);
    let o = handle_command(&cmd(&[CMD_RESET, 1]), &mut cfg, false, 0);
    assert_eq!(o.resp[2], ST_ERR);
    assert_eq!(cfg.layers.len(), 1);
    let o = handle_command(&cmd(&[CMD_RESET, 1]), &mut cfg, true, 0);
    assert_eq!(o.resp[2], ST_OK);
    assert_eq!(cfg, Config::default());
}

#[test]
fn reboot_and_unknown() {
    let mut cfg = Config::default();
    let o = handle_command(&cmd(&[CMD_REBOOT, 4]), &mut cfg, true, 0);
    assert!(o.reboot);
    assert_eq!(&o.resp[0..3], &[CMD_REBOOT, 4, ST_OK]);
    let o = handle_command(&cmd(&[0x77, 5]), &mut cfg, true, 0);
    assert_eq!(&o.resp[0..3], &[0x77, 5, ST_UNKNOWN]);
    assert!(!o.reboot);
}
