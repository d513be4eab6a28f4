use naginata::romaji::kana_to_romaji;

fn r(s: &str) -> String {
    kana_to_romaji::<32>(s)
}

#[test]
fn basic_gojuon() {
    assert_eq!(r("かう").as_str(), "kau");
    assert_eq!(r("し").as_str(), "si");
    assert_eq!(r("て").as_str(), "te");
}

#[test]
fn dakuten() {
    assert_eq!(r("が").as_str(), "ga");
    assert_eq!(r("づ").as_str(), "du");
}

#[test]
fn hatsuon_is_always_double_n() {
    assert_eq!(r("ん").as_str(), "nn");
    assert_eq!(r("かんい").as_str(), "kanni");
}

#[test]
fn youon() {
    assert_eq!(r("きゃ").as_str(), "kya");
    assert_eq!(r("しゃ").as_str(), "sya");
    assert_eq!(r("ちょ").as_str(), "tyo");
}

#[test]
fn sokuon_doubles_consonant() {
    assert_eq!(r("かっこ").as_str(), "kakko");
    assert_eq!(r("っ").as_str(), "xtu");
}

#[test]
fn chouon() {
    assert_eq!(r("かー").as_str(), "ka-");
}

// Further cases.

#[test]
fn output_is_cut_at_capacity() {
    assert_eq!(kana_to_romaji::<3>("かきく").as_str(), "kak");
    assert_eq!(kana_to_romaji::<0>("か").as_str(), "");
}

#[test]
fn unknown_chars_are_skipped() {
    assert_eq!(r("aかZ").as_str(), "ka");
}

#[test]
fn sokuon_before_vowel_or_long_mark_is_xtu() {
    assert_eq!(r("っあ").as_str(), "xtua");
    assert_eq!(r("っー").as_str(), "xtu-");
}

#[test]
fn small_ya_alone_falls_back() {
    assert_eq!(r("ゃ").as_str(), "xya");
    assert_eq!(r("かゃ").as_str(), "kaxya");
}

#[test]
fn sokuon_before_contracted_sound() {
    assert_eq!(r("っきゃ").as_str(), "kkya");
}
