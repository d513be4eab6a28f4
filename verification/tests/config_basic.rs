use naginata::config::{pseudo, Params, DEFAULT_LED_BRIGHTNESS};
use naginata::layout::{TAP_MS, WINDOW_MS};

#[test]
fn default_params_match_codegen() {
    let p = Params::default();
    assert_eq!(p.window_ms, WINDOW_MS as u16);
    assert_eq!(p.tap_ms, TAP_MS as u16);
    assert_eq!(p.led_brightness, DEFAULT_LED_BRIGHTNESS);
}

#[test]
fn pseudo_layer_op() {
    assert_eq!(pseudo::layer_op(0xf0), Some((false, 0)));
    assert_eq!(pseudo::layer_op(0xf3), Some((false, 3)));
    assert_eq!(pseudo::layer_op(0xf8), Some((true, 0)));
    assert_eq!(pseudo::layer_op(0xff), Some((true, 7)));
    assert_eq!(pseudo::layer_op(0xe0), None);
}
