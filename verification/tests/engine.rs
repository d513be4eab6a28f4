use naginata::engine::Engine;
use naginata::hid::KeyPress;
use naginata::keymap::{self, Overlay};
use naginata::Action;

/// Feeds events ('p' press, 'r' release, 't' tick) and collects the actions.
fn drive(mut e: Engine, events: &[(char, u8, u32)]) -> Vec<Action> {
    let mut out: Vec<Action> = Vec::new();
    for &(kind, sc, now) in events {
        match kind {
            'p' => e.press(sc, now, &mut out),
            'r' => e.release(sc, now, &mut out),
            't' => e.tick(now, &mut out),
            _ => unreachable!(),
        }
    }
    out
}

fn run(events: &[(char, u8, u32)]) -> Vec<Action> {
    drive(Engine::with_window(40), events)
}

fn run_rep(delay: u32, interval: u32, events: &[(char, u8, u32)]) -> Vec<Action> {
    let mut e = Engine::with_window(40);
    e.set_repeat(delay, interval);
    drive(e, events)
}

fn run_ovr(ovr: &'static Overlay, events: &[(char, u8, u32)]) -> Vec<Action> {
    let mut e = Engine::with_window(40);
    e.set_overlay(ovr);
    drive(e, events)
}

fn leak<T>(v: Vec<T>) -> &'static [T] {
    Box::leak(v.into_boxed_slice())
}

fn overlay(
    layers: Vec<(u16, Action)>,
    combo2: Vec<(u16, Action)>,
    combo3: Vec<(u32, Action)>,
    modes: Vec<(u16, Action)>,
) -> &'static Overlay {
    Box::leak(Box::new(Overlay {
        layers: leak(layers),
        combo2: leak(combo2),
        combo3: leak(combo3),
        modes: leak(modes),
    }))
}

#[test]
fn single_tap_base() {
    assert_eq!(run(&[('p', 0x11, 0), ('r', 0x11, 10)]), [Action::Kana("き")]);
}

#[test]
fn override_changes_single_tap() {
    let ov = overlay(vec![(keymap::layer_key(0, 0x11), Action::Kana("め"))], vec![], vec![], vec![]);
    let out = run_ovr(ov, &[('p', 0x11, 0), ('r', 0x11, 10)]);
    assert_eq!(out, [Action::Kana("め")]);
}

#[test]
fn override_does_not_affect_other_keys() {
    let ov = overlay(vec![(keymap::layer_key(0, 0x11), Action::Kana("め"))], vec![], vec![], vec![]);
    let out = run_ovr(ov, &[('p', 0x12, 0), ('r', 0x12, 10)]);
    assert_eq!(out, [Action::Kana("て")]);
}

#[test]
fn empty_override_matches_default() {
    let out = run_ovr(keymap::empty_overlay(), &[('p', 0x11, 0), ('r', 0x11, 10)]);
    assert_eq!(out, [Action::Kana("き")]);
}

#[test]
fn override_changes_shifted_face() {
    let ov = overlay(vec![(keymap::layer_key(0x01, 0x16), Action::Kana("ＸＸ"))], vec![], vec![], vec![]);
    let out = run_ovr(ov, &[('p', 0x39, 0), ('p', 0x16, 5), ('r', 0x16, 30), ('r', 0x39, 35)]);
    assert_eq!(out, [Action::Kana("ＸＸ")]);
    let single = run_ovr(ov, &[('p', 0x16, 0), ('r', 0x16, 10)]);
    assert_eq!(single, [Action::Keys(&[KeyPress { usage: 0x2a, modifiers: 0 }])]);
}

#[test]
fn override_replaces_combo2() {
    let ov = overlay(vec![], vec![(keymap::combo2_key(0x11, 0x23), Action::Kana("ＸＸ"))], vec![], vec![]);
    let out = run_ovr(ov, &[('p', 0x11, 0), ('p', 0x23, 5), ('r', 0x11, 30), ('r', 0x23, 35)]);
    assert_eq!(out, [Action::Kana("ＸＸ")]);
}

#[test]
fn override_adds_new_combo2() {
    let ov = overlay(vec![], vec![(keymap::combo2_key(0x1e, 0x1f), Action::Kana("ＮＥＷ"))], vec![], vec![]);
    let out = run_ovr(ov, &[('p', 0x1e, 0), ('p', 0x1f, 5), ('r', 0x1e, 30), ('r', 0x1f, 35)]);
    assert_eq!(out, [Action::Kana("ＮＥＷ")]);
}

#[test]
fn override_changes_mode_action() {
    let down: &'static [KeyPress] = leak(vec![KeyPress { usage: 0x51, modifiers: 0 }]);
    let ov = overlay(vec![], vec![], vec![], vec![(keymap::layer_key(1, 0x24), Action::Keys(down))]);
    let out = run_ovr(ov, &[('p', 0x20, 0), ('p', 0x21, 5), ('p', 0x24, 20), ('r', 0x24, 25)]);
    assert_eq!(out, [Action::Keys(down)]);
}

#[test]
fn shift_key_tap_is_its_base() {
    assert_eq!(run(&[('p', 0x21, 0), ('r', 0x21, 10)]), [Action::Kana("か")]);
}

#[test]
fn long_solo_tap_of_shift_key_still_emits_kana() {
    let out = run(&[('p', 0x10, 0), ('t', 0, 50), ('t', 0, 90), ('r', 0x10, 100)]);
    assert_eq!(out, [Action::Kana("ヴ")]);
}

#[test]
fn center_shift_prefix() {
    let out = run(&[('p', 0x39, 0), ('p', 0x16, 5), ('r', 0x16, 30), ('r', 0x39, 35)]);
    assert_eq!(out, [Action::Kana("さ")]);
}

#[test]
fn center_shift_postfix() {
    let out = run(&[('p', 0x16, 0), ('p', 0x39, 10), ('r', 0x16, 30), ('r', 0x39, 35)]);
    assert_eq!(out, [Action::Kana("さ")]);
}

#[test]
fn continuous_shift_applies_to_multiple_bases() {
    let out = run(&[
        ('p', 0x39, 0), ('p', 0x16, 5), ('r', 0x16, 10),
        ('p', 0x17, 15), ('r', 0x17, 20), ('r', 0x39, 25),
    ]);
    assert_eq!(out, [Action::Kana("さ"), Action::Kana("よ")]);
}

#[test]
fn continuous_shift_applies_after_gap() {
    let out = run(&[('p', 0x39, 0), ('t', 0, 50), ('p', 0x16, 55), ('r', 0x16, 60)]);
    assert_eq!(out, [Action::Kana("さ")]);
}

#[test]
fn pending_base_flushes_as_single_on_timeout() {
    assert_eq!(run(&[('p', 0x11, 0), ('t', 0, 50)]), [Action::Kana("き")]);
}

#[test]
fn sequential_singles() {
    let out = run(&[('p', 0x11, 0), ('p', 0x12, 5), ('r', 0x11, 10), ('r', 0x12, 15)]);
    assert_eq!(out, [Action::Kana("き"), Action::Kana("て")]);
}

#[test]
fn dakuten_nonshift_base_both_orders() {
    let a = run(&[('p', 0x24, 0), ('p', 0x11, 5), ('r', 0x11, 20), ('r', 0x24, 25)]);
    assert_eq!(a, [Action::Kana("ぎ")]);
    let b = run(&[('p', 0x11, 0), ('p', 0x24, 5), ('r', 0x11, 20), ('r', 0x24, 25)]);
    assert_eq!(b, [Action::Kana("ぎ")]);
}

#[test]
fn dakuten_shift_base_both_orders() {
    let a = run(&[('p', 0x24, 0), ('p', 0x21, 5), ('r', 0x21, 20), ('r', 0x24, 25)]);
    assert_eq!(a, [Action::Kana("が")]);
    let b = run(&[('p', 0x21, 0), ('p', 0x24, 5), ('r', 0x21, 20), ('r', 0x24, 25)]);
    assert_eq!(b, [Action::Kana("が")]);
}

#[test]
fn dakuten_go() {
    let out = run(&[('p', 0x2f, 0), ('p', 0x24, 5), ('r', 0x2f, 20), ('r', 0x24, 25)]);
    assert_eq!(out, [Action::Kana("ご")]);
}

#[test]
fn handakuten_pa() {
    let out = run(&[('p', 0x32, 0), ('p', 0x2e, 5), ('r', 0x2e, 20), ('r', 0x32, 25)]);
    assert_eq!(out, [Action::Kana("ぱ")]);
}

#[test]
fn small_ya() {
    let out = run(&[('p', 0x10, 0), ('p', 0x23, 5), ('r', 0x23, 20), ('r', 0x10, 25)]);
    assert_eq!(out, [Action::Kana("ゃ")]);
}

#[test]
fn continuous_dakuten_including_shift_base() {
    let out = run(&[
        ('p', 0x24, 0),
        ('p', 0x11, 5), ('r', 0x11, 10),
        ('p', 0x21, 15), ('r', 0x21, 20),
        ('r', 0x24, 25),
    ]);
    assert_eq!(out, [Action::Kana("ぎ"), Action::Kana("が")]);
}

#[test]
fn ime_on_emits_keys() {
    let out = run(&[('p', 0x24, 0), ('p', 0x23, 6), ('r', 0x23, 30), ('r', 0x24, 36)]);
    const LANG1: &[KeyPress] = &[KeyPress { usage: 0x90, modifiers: 0 }];
    assert_eq!(out, [Action::Keys(LANG1)]);
}

#[test]
fn center_v_emits_touten() {
    let out = run(&[('p', 0x39, 0), ('p', 0x2f, 5), ('r', 0x2f, 20), ('r', 0x39, 25)]);
    const TOUTEN: &[KeyPress] = &[KeyPress { usage: 0x36, modifiers: 0 }, KeyPress { usage: 0x28, modifiers: 0 }];
    assert_eq!(out, [Action::Keys(TOUTEN)]);
}

#[test]
fn gairai_di_3key() {
    let out = run(&[
        ('p', 0x24, 0),
        ('p', 0x12, 5),
        ('p', 0x25, 10),
        ('r', 0x25, 30), ('r', 0x12, 35), ('r', 0x24, 40),
    ]);
    assert_eq!(out, [Action::Kana("でぃ")]);
}

#[test]
fn gairai_prefix_falls_back_to_dakuten() {
    let out = run(&[('p', 0x24, 0), ('p', 0x12, 5), ('t', 0, 50)]);
    assert_eq!(out, [Action::Kana("で")]);
}

#[test]
fn gairai_tou_3key() {
    let out = run(&[
        ('p', 0x32, 0), ('p', 0x20, 5), ('p', 0x26, 10),
        ('r', 0x26, 30), ('r', 0x20, 35), ('r', 0x32, 40),
    ]);
    assert_eq!(out, [Action::Kana("とぅ")]);
}

#[test]
fn ga_not_deferred() {
    let out = run(&[('p', 0x24, 0), ('p', 0x21, 5), ('r', 0x21, 20), ('r', 0x24, 25)]);
    assert_eq!(out, [Action::Kana("が")]);
}

#[test]
fn dakuon_youon_gya() {
    let out = run(&[
        ('p', 0x24, 0), ('p', 0x11, 5), ('p', 0x23, 10),
        ('r', 0x23, 30), ('r', 0x11, 35), ('r', 0x24, 40),
    ]);
    assert_eq!(out, [Action::Kana("ぎゃ")]);
}

#[test]
fn kya_defers_then_falls_back() {
    let out = run(&[('p', 0x11, 0), ('p', 0x23, 5), ('t', 0, 50)]);
    assert_eq!(out, [Action::Kana("きゃ")]);
}

#[test]
fn gairai_fa() {
    let out = run(&[
        ('p', 0x2f, 0), ('p', 0x27, 5), ('p', 0x24, 10),
        ('r', 0x24, 30), ('r', 0x27, 35), ('r', 0x2f, 40),
    ]);
    assert_eq!(out, [Action::Kana("ふぁ")]);
}

#[test]
fn edit_mode1_cursor() {
    const UP: &[KeyPress] = &[KeyPress { usage: 0x52, modifiers: 0 }];
    let out = run(&[
        ('p', 0x20, 0),
        ('p', 0x21, 5),
        ('p', 0x24, 20),
        ('r', 0x24, 25),
        ('r', 0x21, 30),
        ('r', 0x20, 35),
    ]);
    assert_eq!(out, [Action::Keys(UP)]);
}

#[test]
fn edit_mode2_copy() {
    const COPY: &[KeyPress] = &[KeyPress { usage: 0x06, modifiers: 0x01 }];
    let out = run(&[
        ('p', 0x2e, 0),
        ('p', 0x2f, 5),
        ('p', 0x23, 20),
        ('r', 0x23, 25),
        ('r', 0x2f, 30),
        ('r', 0x2e, 35),
    ]);
    assert_eq!(out, [Action::Keys(COPY)]);
}

#[test]
fn edit_mode_exits() {
    let out = run(&[
        ('p', 0x20, 0), ('p', 0x21, 5),
        ('r', 0x20, 10), ('r', 0x21, 15),
        ('p', 0x11, 50), ('r', 0x11, 55),
    ]);
    assert_eq!(out, [Action::Kana("き")]);
}

#[test]
fn seion_youon_kya() {
    let a = run(&[('p', 0x11, 0), ('p', 0x23, 5), ('r', 0x11, 20), ('r', 0x23, 25)]);
    assert_eq!(a, [Action::Kana("きゃ")]);
    let b = run(&[('p', 0x23, 0), ('p', 0x11, 5), ('r', 0x23, 20), ('r', 0x11, 25)]);
    assert_eq!(b, [Action::Kana("きゃ")]);
}

#[test]
fn sequential_not_combo() {
    let out = run(&[('p', 0x11, 0), ('r', 0x11, 10), ('p', 0x23, 50), ('r', 0x23, 60)]);
    assert_eq!(out, [Action::Kana("き"), Action::Kana("く")]);
}

#[test]
fn ko_na_emits_enter() {
    const ENTER: &[KeyPress] = &[KeyPress { usage: 0x28, modifiers: 0 }];
    let a = run(&[('p', 0x2f, 0), ('p', 0x32, 5), ('r', 0x32, 20), ('r', 0x2f, 25)]);
    assert_eq!(a, [Action::Keys(ENTER)]);
    let b = run(&[('p', 0x32, 0), ('p', 0x2f, 5), ('r', 0x2f, 20), ('r', 0x32, 25)]);
    assert_eq!(b, [Action::Keys(ENTER)]);
}

#[test]
fn repeat_base_bs() {
    const BS: &[KeyPress] = &[KeyPress { usage: 0x2a, modifiers: 0 }];
    let out = run_rep(100, 20, &[
        ('p', 0x16, 0),
        ('t', 0, 50),
        ('t', 0, 100),
        ('t', 0, 160),
        ('t', 0, 185),
        ('r', 0x16, 190),
        ('t', 0, 260),
    ]);
    assert_eq!(out, [Action::Keys(BS), Action::Keys(BS), Action::Keys(BS)]);
}

#[test]
fn repeat_base_left() {
    const LEFT: &[KeyPress] = &[KeyPress { usage: 0x50, modifiers: 0 }];
    let out = run_rep(100, 20, &[
        ('p', 0x14, 0), ('t', 0, 50), ('t', 0, 160), ('r', 0x14, 170), ('t', 0, 220),
    ]);
    assert_eq!(out, [Action::Keys(LEFT), Action::Keys(LEFT)]);
}

#[test]
fn base_bs_tap_no_repeat() {
    const BS: &[KeyPress] = &[KeyPress { usage: 0x2a, modifiers: 0 }];
    let out = run_rep(100, 20, &[('p', 0x16, 0), ('r', 0x16, 10), ('t', 0, 100), ('t', 0, 200)]);
    assert_eq!(out, [Action::Keys(BS)]);
}

#[test]
fn repeat_left_after_delay_and_stops_on_release() {
    const LEFT: &[KeyPress] = &[KeyPress { usage: 0x50, modifiers: 0 }];
    let out = run_rep(100, 20, &[
        ('p', 0x2e, 0), ('p', 0x2f, 5),
        ('p', 0x32, 10),
        ('t', 0, 50),
        ('t', 0, 115),
        ('t', 0, 120),
        ('t', 0, 140),
        ('r', 0x32, 145),
        ('t', 0, 200),
    ]);
    assert_eq!(out, [Action::Keys(LEFT), Action::Keys(LEFT), Action::Keys(LEFT)]);
}

#[test]
fn repeat_del_in_mode1() {
    const DEL: &[KeyPress] = &[KeyPress { usage: 0x4c, modifiers: 0 }];
    let out = run_rep(100, 20, &[
        ('p', 0x20, 0), ('p', 0x21, 5),
        ('p', 0x18, 10),
        ('t', 0, 115),
        ('t', 0, 140),
        ('r', 0x18, 145),
        ('t', 0, 200),
    ]);
    assert_eq!(out, [Action::Keys(DEL), Action::Keys(DEL), Action::Keys(DEL)]);
}

#[test]
fn modifier_action_does_not_repeat() {
    const COPY: &[KeyPress] = &[KeyPress { usage: 0x06, modifiers: 0x01 }];
    let out = run_rep(100, 20, &[
        ('p', 0x2e, 0), ('p', 0x2f, 5),
        ('p', 0x23, 10),
        ('t', 0, 150), ('t', 0, 300),
        ('r', 0x23, 310),
    ]);
    assert_eq!(out, [Action::Keys(COPY)]);
}

#[test]
fn kana_does_not_repeat() {
    let out = run_rep(100, 20, &[
        ('p', 0x11, 0),
        ('t', 0, 50),
        ('t', 0, 100), ('t', 0, 200),
    ]);
    assert_eq!(out, [Action::Kana("き")]);
}

#[test]
fn repeat_stops_when_mode_exits() {
    const LEFT: &[KeyPress] = &[KeyPress { usage: 0x50, modifiers: 0 }];
    let out = run_rep(100, 20, &[
        ('p', 0x2e, 0), ('p', 0x2f, 5),
        ('p', 0x32, 10),
        ('r', 0x2f, 15),
        ('t', 0, 150), ('t', 0, 300),
    ]);
    assert_eq!(out, [Action::Keys(LEFT)]);
}
