use naginata::engine::Engine;
use naginata::keymap;
use naginata::Action;

#[test]
fn layer_keys_tell_pairs_apart() {
    assert_eq!(keymap::layer_key(1, 2), 0x0102);
    assert_ne!(keymap::layer_key(1, 2), keymap::layer_key(2, 1));
}

#[test]
fn combo2_key_ignores_order() {
    assert_eq!(keymap::combo2_key(0x16, 0x24), keymap::combo2_key(0x24, 0x16));
    assert_ne!(keymap::combo2_key(0x16, 0x24), keymap::combo2_key(0x16, 0x25));
    assert_eq!(keymap::combo2_lookup(0x16, 0x24), keymap::combo2_lookup(0x24, 0x16));
}

#[test]
fn combo3_key_ignores_order() {
    let k = keymap::combo3_key(0x39, 0x23, 0x20);
    assert_eq!(k, keymap::combo3_key(0x23, 0x39, 0x20));
    assert_eq!(k, keymap::combo3_key(0x39, 0x20, 0x23));
    assert_eq!(k, keymap::combo3_key(0x20, 0x23, 0x39));
    assert_eq!(keymap::combo3_lookup(0x20, 0x39, 0x23), Action::Kana("にゃ"));
}

#[test]
fn display_shows_the_held_shift() {
    let mut e = Engine::with_window(40);
    let mut out = Vec::new();
    e.press(0x39, 0, &mut out);
    // A pending shift key is shown before it is held.
    assert_eq!(e.held_shifts(), 0);
    assert_ne!(e.display_shifts(), 0);
    // The next key makes it a held shift: the display shows exactly that.
    e.press(0x11, 10, &mut out);
    assert_ne!(e.held_shifts(), 0);
    assert_eq!(e.display_shifts() & e.held_shifts(), e.held_shifts());
    assert_eq!(e.display_shifts(), e.held_shifts());
    e.release(0x11, 20, &mut out);
    e.release(0x39, 30, &mut out);
    assert_eq!(e.held_shifts(), 0);
    assert_eq!(e.display_shifts(), 0);
}
