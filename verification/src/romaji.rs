//! Kana to romaji conversion.
//!
//! Kunrei-style spelling with the fewest strokes (si, ti, tu, hu, zi, ...),
//! the syllabic n always as "nn". The output is lower-case ASCII letters and
//! '-' only, which any romaji IME accepts.
//!
//! A contracted sound (kya, ...) comes as two kana: an i-row kana followed by
//! a small ya, yu or yo.
use vstd::prelude::*;
use vstd::string::*;

use crate::assoc::{assoc, first_index, lookup_char};

verus! {

/// The romaji of one kana (mora). Contracted sounds, the small tsu and the
/// syllabic n are handled by the conversion around it.
pub const BASE: [(char, &'static str); 84] = [
    ('あ', "a"),
    ('い', "i"),
    ('う', "u"),
    ('え', "e"),
    ('お', "o"),
    ('か', "ka"),
    ('き', "ki"),
    ('く', "ku"),
    ('け', "ke"),
    ('こ', "ko"),
    ('が', "ga"),
    ('ぎ', "gi"),
    ('ぐ', "gu"),
    ('げ', "ge"),
    ('ご', "go"),
    ('さ', "sa"),
    ('し', "si"),
    ('す', "su"),
    ('せ', "se"),
    ('そ', "so"),
    ('ざ', "za"),
    ('じ', "zi"),
    ('ず', "zu"),
    ('ぜ', "ze"),
    ('ぞ', "zo"),
    ('た', "ta"),
    ('ち', "ti"),
    ('つ', "tu"),
    ('て', "te"),
    ('と', "to"),
    ('だ', "da"),
    ('ぢ', "di"),
    ('づ', "du"),
    ('で', "de"),
    ('ど', "do"),
    ('な', "na"),
    ('に', "ni"),
    ('ぬ', "nu"),
    ('ね', "ne"),
    ('の', "no"),
    ('は', "ha"),
    ('ひ', "hi"),
    ('ふ', "hu"),
    ('へ', "he"),
    ('ほ', "ho"),
    ('ば', "ba"),
    ('び', "bi"),
    ('ぶ', "bu"),
    ('べ', "be"),
    ('ぼ', "bo"),
    ('ぱ', "pa"),
    ('ぴ', "pi"),
    ('ぷ', "pu"),
    ('ぺ', "pe"),
    ('ぽ', "po"),
    ('ま', "ma"),
    ('み', "mi"),
    ('む', "mu"),
    ('め', "me"),
    ('も', "mo"),
    ('や', "ya"),
    ('ゆ', "yu"),
    ('よ', "yo"),
    ('ら', "ra"),
    ('り', "ri"),
    ('る', "ru"),
    ('れ', "re"),
    ('ろ', "ro"),
    ('わ', "wa"),
    ('を', "wo"),
    ('ん', "nn"),
    ('ゔ', "vu"),
    ('ヴ', "vu"),
    ('ー', "-"),
    ('ぁ', "xa"),
    ('ぃ', "xi"),
    ('ぅ', "xu"),
    ('ぇ', "xe"),
    ('ぉ', "xo"),
    ('ゃ', "xya"),
    ('ゅ', "xyu"),
    ('ょ', "xyo"),
    ('ゎ', "xwa"),
    ('っ', "xtu"),
];

/// The consonant of an i-row kana that can start a contracted sound
/// (kya = k + ya, sya = s + ya, tya = t + ya).
pub const YOUON: [(char, char); 12] = [
    ('き', 'k'),
    ('ぎ', 'g'),
    ('し', 's'),
    ('じ', 'z'),
    ('ち', 't'),
    ('ぢ', 'd'),
    ('に', 'n'),
    ('ひ', 'h'),
    ('び', 'b'),
    ('ぴ', 'p'),
    ('み', 'm'),
    ('り', 'r'),
];

/// The small ya, yu and yo ending a contracted sound.
pub const SMALL_YOUON: [(char, &'static str); 3] = [
    ('ゃ', "ya"),
    ('ゅ', "yu"),
    ('ょ', "yo"),
];

/// A letter that a small tsu doubles: an ASCII letter that is not a vowel.
pub open spec fn doubles(c: char) -> bool {
    (('a' <= c && c <= 'z') || ('A' <= c && c <= 'Z')) && c != 'a' && c != 'i' && c != 'u' && c
        != 'e' && c != 'o'
}

/// Whether the romaji `r` of the kana after a small tsu starts with a
/// letter to double.
pub open spec fn doubled_start(r: Option<&'static str>) -> bool {
    r matches Some(x) && x@.len() > 0 && doubles(x@[0])
}

/// The romaji of the kana at `i` and the index of the next kana to read:
/// - a small tsu doubles the first letter of the next kana where that is a
///   consonant letter, and is "xtu" otherwise;
/// - an i-row kana followed by a small ya, yu or yo is the consonant and
///   "ya", "yu" or "yo", and both kana are read;
/// - any other kana is its base romaji; an unknown char gives nothing.
pub open spec fn step_of(s: Seq<char>, i: int) -> (Seq<char>, int) {
    let c = s[i];
    let has_next = i + 1 < s.len();
    if c == 'っ' {
        if has_next && doubled_start(assoc(BASE@, s[i + 1])) {
            (seq![assoc(BASE@, s[i + 1])->0@[0]], i + 1)
        } else {
            (seq!['x', 't', 'u'], i + 1)
        }
    } else if has_next && assoc(YOUON@, c) is Some && assoc(SMALL_YOUON@, s[i + 1]) is Some {
        (seq![assoc(YOUON@, c)->0] + assoc(SMALL_YOUON@, s[i + 1])->0@, i + 2)
    } else {
        match assoc(BASE@, c) {
            Some(r) => (r@, i + 1),
            None => (Seq::empty(), i + 1),
        }
    }
}

/// The romaji of the kana from `i` on.
pub open spec fn romaji_from(s: Seq<char>, i: int) -> Seq<char>
    decreases s.len() - i,
{
    if i < 0 || i >= s.len() {
        Seq::empty()
    } else {
        step_of(s, i).0 + romaji_from(s, step_of(s, i).1)
    }
}

/// The romaji of a kana string.
pub open spec fn romaji_of(s: Seq<char>) -> Seq<char> {
    romaji_from(s, 0)
}

/// At most the first `cap` chars of `s`.
pub open spec fn capped(s: Seq<char>, cap: nat) -> Seq<char> {
    if s.len() <= cap {
        s
    } else {
        s.take(cap as int)
    }
}

/// `String::push`: appends the char at the end of the string.
#[verifier::external_body]
fn string_push(s: &mut String, c: char)
    ensures
        final(s)@ == old(s)@.push(c),
{
    s.push(c);
}

/// Appends `c` while fewer than `cap` chars are held.
fn push_capped(out: &mut String, held: &mut usize, cap: usize, c: char, Ghost(done): Ghost<Seq<char>>)
    requires
        *old(held) == old(out)@.len(),
        old(out)@ == capped(done, cap as nat),
    ensures
        *final(held) == final(out)@.len(),
        final(out)@ == capped(done.push(c), cap as nat),
{
    if *held < cap {
        string_push(out, c);
        *held = *held + 1;
        assert(out@ =~= capped(done.push(c), cap as nat));
    } else {
        assert(capped(done.push(c), cap as nat) =~= capped(done, cap as nat));
    }
}

/// Appends the chars of `p` as `push_capped` does.
fn push_letters(out: &mut String, held: &mut usize, cap: usize, p: &str, Ghost(done): Ghost<Seq<char>>)
    requires
        *old(held) == old(out)@.len(),
        old(out)@ == capped(done, cap as nat),
    ensures
        *final(held) == final(out)@.len(),
        final(out)@ == capped(done + p@, cap as nat),
{
    let n = p.unicode_len();
    let mut j: usize = 0;
    while j < n
        invariant
            n == p@.len(),
            j <= p@.len(),
            *held == out@.len(),
            out@ == capped(done + p@.take(j as int), cap as nat),
        decreases p@.len() - j,
    {
        let ghost before = done + p@.take(j as int);
        push_capped(out, held, cap, p.get_char(j), Ghost(before));
        assert(before.push(p@[j as int]) =~= done + p@.take(j + 1));
        j = j + 1;
    }
    assert(p@.take(p@.len() as int) =~= p@);
}

/// Converts kana to romaji. Output beyond `N` chars (all ASCII, so bytes)
/// is cut off.
pub fn kana_to_romaji<const N: usize>(kana: &str) -> (r: String)
    ensures
        r@ == capped(romaji_of(kana@), N as nat),
        romaji_text(r@),
{
    let len = kana.unicode_len();
    let mut out = String::new();
    let mut held: usize = 0;
    let ghost s = kana@;
    let ghost mut done: Seq<char> = Seq::empty();
    let mut i: usize = 0;
    assert(capped(done, N as nat) =~= out@);
    assert(done + romaji_from(s, 0) =~= romaji_of(s));
    while i < len
        invariant
            s == kana@,
            len == s.len(),
            i <= len,
            held == out@.len(),
            out@ == capped(done, N as nat),
            done + romaji_from(s, i as int) == romaji_of(s),
        decreases len - i,
    {
        let c = kana.get_char(i);
        let has_next = i + 1 < len;
        let ghost step = step_of(s, i as int);
        let ghost done0 = done;
        let ghost i0 = i;
        if c == 'っ' {
            let mut doubled = false;
            if has_next {
                let next = kana.get_char(i + 1);
                if let Some(r) = lookup_char(&BASE, next) {
                    if r.unicode_len() > 0 {
                        let first = r.get_char(0);
                        if (('a' <= first && first <= 'z') || ('A' <= first && first <= 'Z'))
                            && first != 'a' && first != 'i' && first != 'u' && first != 'e'
                            && first != 'o' {
                            push_capped(&mut out, &mut held, N, first, Ghost(done));
                            proof {
                                done = done.push(first);
                            }
                            doubled = true;
                        }
                    }
                }
            }
            if !doubled {
                let xtu = "xtu";
                proof {
                    reveal_strlit("xtu");
                }
                push_letters(&mut out, &mut held, N, xtu, Ghost(done));
                proof {
                    assert(xtu@ =~= seq!['x', 't', 'u']);
                    done = done + seq!['x', 't', 'u'];
                }
            }
            i += 1;
        } else {
            let mut joined = false;
            if has_next {
                if let Some(cons) = lookup_char(&YOUON, c) {
                    let next = kana.get_char(i + 1);
                    if let Some(yv) = lookup_char(&SMALL_YOUON, next) {
                        push_capped(&mut out, &mut held, N, cons, Ghost(done));
                        proof {
                            done = done.push(cons);
                        }
                        push_letters(&mut out, &mut held, N, yv, Ghost(done));
                        proof {
                            assert(done + yv@ =~= done0 + (seq![cons] + yv@));
                            done = done + yv@;
                        }
                        joined = true;
                    }
                }
            }
            if joined {
                i += 2;
            } else {
                if let Some(r) = lookup_char(&BASE, c) {
                    push_letters(&mut out, &mut held, N, r, Ghost(done));
                    proof {
                        done = done + r@;
                    }
                }
                i += 1;
            }
        }
        proof {
            assert(done == done0 + step.0);
            assert(i == step.1);
            assert(romaji_from(s, i0 as int) == step.0 + romaji_from(s, i as int));
            assert(done0 + (step.0 + romaji_from(s, i as int)) =~= done + romaji_from(s, i as int));
        }
    }
    proof {
        lemma_romaji_is_ascii(s, 0);
        assert forall|j: int| 0 <= j < out@.len() implies #[trigger] romaji_char(out@[j]) by {
            assert(out@[j] == romaji_of(s)[j]);
        }
    }
    out
}


/// A char of romaji output: a lower-case ASCII letter or '-'.
pub open spec fn romaji_char(c: char) -> bool {
    ('a' <= c && c <= 'z') || c == '-'
}

/// Text made of romaji chars only.
pub open spec fn romaji_text(s: Seq<char>) -> bool {
    forall|j: int| 0 <= j < s.len() ==> #[trigger] romaji_char(s[j])
}

/// Every entry of the tables is romaji text.
proof fn lemma_tables_romaji()
    ensures
        forall|i: int| 0 <= i < BASE@.len() ==> romaji_text(#[trigger] BASE@[i].1@),
        forall|i: int| 0 <= i < SMALL_YOUON@.len() ==> romaji_text(#[trigger] SMALL_YOUON@[i].1@),
        forall|i: int| 0 <= i < YOUON@.len() ==> romaji_char(#[trigger] YOUON@[i].1),
{
    reveal_strlit("-");
    reveal_strlit("a");
    reveal_strlit("ba");
    reveal_strlit("be");
    reveal_strlit("bi");
    reveal_strlit("bo");
    reveal_strlit("bu");
    reveal_strlit("da");
    reveal_strlit("de");
    reveal_strlit("di");
    reveal_strlit("do");
    reveal_strlit("du");
    reveal_strlit("e");
    reveal_strlit("ga");
    reveal_strlit("ge");
    reveal_strlit("gi");
    reveal_strlit("go");
    reveal_strlit("gu");
    reveal_strlit("ha");
    reveal_strlit("he");
    reveal_strlit("hi");
    reveal_strlit("ho");
    reveal_strlit("hu");
    reveal_strlit("i");
    reveal_strlit("ka");
    reveal_strlit("ke");
    reveal_strlit("ki");
    reveal_strlit("ko");
    reveal_strlit("ku");
    reveal_strlit("ma");
    reveal_strlit("me");
    reveal_strlit("mi");
    reveal_strlit("mo");
    reveal_strlit("mu");
    reveal_strlit("na");
    reveal_strlit("ne");
    reveal_strlit("ni");
    reveal_strlit("nn");
    reveal_strlit("no");
    reveal_strlit("nu");
    reveal_strlit("o");
    reveal_strlit("pa");
    reveal_strlit("pe");
    reveal_strlit("pi");
    reveal_strlit("po");
    reveal_strlit("pu");
    reveal_strlit("ra");
    reveal_strlit("re");
    reveal_strlit("ri");
    reveal_strlit("ro");
    reveal_strlit("ru");
    reveal_strlit("sa");
    reveal_strlit("se");
    reveal_strlit("si");
    reveal_strlit("so");
    reveal_strlit("su");
    reveal_strlit("ta");
    reveal_strlit("te");
    reveal_strlit("ti");
    reveal_strlit("to");
    reveal_strlit("tu");
    reveal_strlit("u");
    reveal_strlit("vu");
    reveal_strlit("wa");
    reveal_strlit("wo");
    reveal_strlit("xa");
    reveal_strlit("xe");
    reveal_strlit("xi");
    reveal_strlit("xo");
    reveal_strlit("xtu");
    reveal_strlit("xu");
    reveal_strlit("xwa");
    reveal_strlit("xya");
    reveal_strlit("xyo");
    reveal_strlit("xyu");
    reveal_strlit("ya");
    reveal_strlit("yo");
    reveal_strlit("yu");
    reveal_strlit("za");
    reveal_strlit("ze");
    reveal_strlit("zi");
    reveal_strlit("zo");
    reveal_strlit("zu");
    assert forall|i: int| 0 <= i < BASE@.len() implies romaji_text(#[trigger] BASE@[i].1@) by {
        if i == 0 {
            assert(BASE@[0].1@ =~= "a"@);
        } else if i == 1 {
            assert(BASE@[1].1@ =~= "i"@);
        } else if i == 2 {
            assert(BASE@[2].1@ =~= "u"@);
        } else if i == 3 {
            assert(BASE@[3].1@ =~= "e"@);
        } else if i == 4 {
            assert(BASE@[4].1@ =~= "o"@);
        } else if i == 5 {
            assert(BASE@[5].1@ =~= "ka"@);
        } else if i == 6 {
            assert(BASE@[6].1@ =~= "ki"@);
        } else if i == 7 {
            assert(BASE@[7].1@ =~= "ku"@);
        } else if i == 8 {
            assert(BASE@[8].1@ =~= "ke"@);
        } else if i == 9 {
            assert(BASE@[9].1@ =~= "ko"@);
        } else if i == 10 {
            assert(BASE@[10].1@ =~= "ga"@);
        } else if i == 11 {
            assert(BASE@[11].1@ =~= "gi"@);
        } else if i == 12 {
            assert(BASE@[12].1@ =~= "gu"@);
        } else if i == 13 {
            assert(BASE@[13].1@ =~= "ge"@);
        } else if i == 14 {
            assert(BASE@[14].1@ =~= "go"@);
        } else if i == 15 {
            assert(BASE@[15].1@ =~= "sa"@);
        } else if i == 16 {
            assert(BASE@[16].1@ =~= "si"@);
        } else if i == 17 {
            assert(BASE@[17].1@ =~= "su"@);
        } else if i == 18 {
            assert(BASE@[18].1@ =~= "se"@);
        } else if i == 19 {
            assert(BASE@[19].1@ =~= "so"@);
        } else if i == 20 {
            assert(BASE@[20].1@ =~= "za"@);
        } else if i == 21 {
            assert(BASE@[21].1@ =~= "zi"@);
        } else if i == 22 {
            assert(BASE@[22].1@ =~= "zu"@);
        } else if i == 23 {
            assert(BASE@[23].1@ =~= "ze"@);
        } else if i == 24 {
            assert(BASE@[24].1@ =~= "zo"@);
        } else if i == 25 {
            assert(BASE@[25].1@ =~= "ta"@);
        } else if i == 26 {
            assert(BASE@[26].1@ =~= "ti"@);
        } else if i == 27 {
            assert(BASE@[27].1@ =~= "tu"@);
        } else if i == 28 {
            assert(BASE@[28].1@ =~= "te"@);
        } else if i == 29 {
            assert(BASE@[29].1@ =~= "to"@);
        } else if i == 30 {
            assert(BASE@[30].1@ =~= "da"@);
        } else if i == 31 {
            assert(BASE@[31].1@ =~= "di"@);
        } else if i == 32 {
            assert(BASE@[32].1@ =~= "du"@);
        } else if i == 33 {
            assert(BASE@[33].1@ =~= "de"@);
        } else if i == 34 {
            assert(BASE@[34].1@ =~= "do"@);
        } else if i == 35 {
            assert(BASE@[35].1@ =~= "na"@);
        } else if i == 36 {
            assert(BASE@[36].1@ =~= "ni"@);
        } else if i == 37 {
            assert(BASE@[37].1@ =~= "nu"@);
        } else if i == 38 {
            assert(BASE@[38].1@ =~= "ne"@);
        } else if i == 39 {
            assert(BASE@[39].1@ =~= "no"@);
        } else if i == 40 {
            assert(BASE@[40].1@ =~= "ha"@);
        } else if i == 41 {
            assert(BASE@[41].1@ =~= "hi"@);
        } else if i == 42 {
            assert(BASE@[42].1@ =~= "hu"@);
        } else if i == 43 {
            assert(BASE@[43].1@ =~= "he"@);
        } else if i == 44 {
            assert(BASE@[44].1@ =~= "ho"@);
        } else if i == 45 {
            assert(BASE@[45].1@ =~= "ba"@);
        } else if i == 46 {
            assert(BASE@[46].1@ =~= "bi"@);
        } else if i == 47 {
            assert(BASE@[47].1@ =~= "bu"@);
        } else if i == 48 {
            assert(BASE@[48].1@ =~= "be"@);
        } else if i == 49 {
            assert(BASE@[49].1@ =~= "bo"@);
        } else if i == 50 {
            assert(BASE@[50].1@ =~= "pa"@);
        } else if i == 51 {
            assert(BASE@[51].1@ =~= "pi"@);
        } else if i == 52 {
            assert(BASE@[52].1@ =~= "pu"@);
        } else if i == 53 {
            assert(BASE@[53].1@ =~= "pe"@);
        } else if i == 54 {
            assert(BASE@[54].1@ =~= "po"@);
        } else if i == 55 {
            assert(BASE@[55].1@ =~= "ma"@);
        } else if i == 56 {
            assert(BASE@[56].1@ =~= "mi"@);
        } else if i == 57 {
            assert(BASE@[57].1@ =~= "mu"@);
        } else if i == 58 {
            assert(BASE@[58].1@ =~= "me"@);
        } else if i == 59 {
            assert(BASE@[59].1@ =~= "mo"@);
        } else if i == 60 {
            assert(BASE@[60].1@ =~= "ya"@);
        } else if i == 61 {
            assert(BASE@[61].1@ =~= "yu"@);
        } else if i == 62 {
            assert(BASE@[62].1@ =~= "yo"@);
        } else if i == 63 {
            assert(BASE@[63].1@ =~= "ra"@);
        } else if i == 64 {
            assert(BASE@[64].1@ =~= "ri"@);
        } else if i == 65 {
            assert(BASE@[65].1@ =~= "ru"@);
        } else if i == 66 {
            assert(BASE@[66].1@ =~= "re"@);
        } else if i == 67 {
            assert(BASE@[67].1@ =~= "ro"@);
        } else if i == 68 {
            assert(BASE@[68].1@ =~= "wa"@);
        } else if i == 69 {
            assert(BASE@[69].1@ =~= "wo"@);
        } else if i == 70 {
            assert(BASE@[70].1@ =~= "nn"@);
        } else if i == 71 {
            assert(BASE@[71].1@ =~= "vu"@);
        } else if i == 72 {
            assert(BASE@[72].1@ =~= "vu"@);
        } else if i == 73 {
            assert(BASE@[73].1@ =~= "-"@);
        } else if i == 74 {
            assert(BASE@[74].1@ =~= "xa"@);
        } else if i == 75 {
            assert(BASE@[75].1@ =~= "xi"@);
        } else if i == 76 {
            assert(BASE@[76].1@ =~= "xu"@);
        } else if i == 77 {
            assert(BASE@[77].1@ =~= "xe"@);
        } else if i == 78 {
            assert(BASE@[78].1@ =~= "xo"@);
        } else if i == 79 {
            assert(BASE@[79].1@ =~= "xya"@);
        } else if i == 80 {
            assert(BASE@[80].1@ =~= "xyu"@);
        } else if i == 81 {
            assert(BASE@[81].1@ =~= "xyo"@);
        } else if i == 82 {
            assert(BASE@[82].1@ =~= "xwa"@);
        } else if i == 83 {
            assert(BASE@[83].1@ =~= "xtu"@);
        }
    }
    assert forall|i: int| 0 <= i < SMALL_YOUON@.len() implies romaji_text(
        #[trigger] SMALL_YOUON@[i].1@,
    ) by {
        if i == 0 {
            assert(SMALL_YOUON@[0].1@ =~= "ya"@);
        } else if i == 1 {
            assert(SMALL_YOUON@[1].1@ =~= "yu"@);
        } else if i == 2 {
            assert(SMALL_YOUON@[2].1@ =~= "yo"@);
        }
    }
    assert forall|i: int| 0 <= i < YOUON@.len() implies romaji_char(#[trigger] YOUON@[i].1) by {
        if i == 0 {
            assert(YOUON@[0].1 == 'k');
        } else if i == 1 {
            assert(YOUON@[1].1 == 'g');
        } else if i == 2 {
            assert(YOUON@[2].1 == 's');
        } else if i == 3 {
            assert(YOUON@[3].1 == 'z');
        } else if i == 4 {
            assert(YOUON@[4].1 == 't');
        } else if i == 5 {
            assert(YOUON@[5].1 == 'd');
        } else if i == 6 {
            assert(YOUON@[6].1 == 'n');
        } else if i == 7 {
            assert(YOUON@[7].1 == 'h');
        } else if i == 8 {
            assert(YOUON@[8].1 == 'b');
        } else if i == 9 {
            assert(YOUON@[9].1 == 'p');
        } else if i == 10 {
            assert(YOUON@[10].1 == 'm');
        } else if i == 11 {
            assert(YOUON@[11].1 == 'r');
        }
    }
}

/// What a table gives is romaji text.
proof fn lemma_lookup_romaji(c: char)
    ensures
        assoc(BASE@, c) matches Some(r) ==> romaji_text(r@),
        assoc(SMALL_YOUON@, c) matches Some(r) ==> romaji_text(r@),
        assoc(YOUON@, c) matches Some(r) ==> romaji_char(r),
{
    lemma_tables_romaji();
    crate::assoc::lemma_assoc_some(BASE@, c);
    crate::assoc::lemma_assoc_some(SMALL_YOUON@, c);
    crate::assoc::lemma_assoc_some(YOUON@, c);
}

/// The romaji of any kana string is made of lower-case ASCII letters and
/// '-' only.
pub proof fn lemma_romaji_is_ascii(s: Seq<char>, i: int)
    ensures
        romaji_text(romaji_from(s, i)),
    decreases s.len() - i,
{
    if 0 <= i < s.len() {
        let st = step_of(s, i);
        lemma_romaji_is_ascii(s, st.1);
        lemma_lookup_romaji(s[i]);
        if i + 1 < s.len() {
            lemma_lookup_romaji(s[i + 1]);
        }
        reveal_strlit("xtu");
        assert(romaji_text(st.0)) by {
            if s[i] == 'っ' {
                if i + 1 < s.len() && doubled_start(assoc(BASE@, s[i + 1])) {
                    assert(romaji_char(assoc(BASE@, s[i + 1])->0@[0]));
                }
            } else if i + 1 < s.len() && assoc(YOUON@, s[i]) is Some && assoc(SMALL_YOUON@, s[i + 1])
                is Some {
                let y = assoc(SMALL_YOUON@, s[i + 1])->0@;
                assert forall|j: int| 0 <= j < st.0.len() implies #[trigger] romaji_char(st.0[j]) by {
                    if j > 0 {
                        assert(st.0[j] == y[j - 1]);
                    }
                }
            }
        }
        let t = romaji_from(s, i);
        assert forall|j: int| 0 <= j < t.len() implies #[trigger] romaji_char(t[j]) by {
            if j < st.0.len() {
                assert(t[j] == st.0[j]);
            } else {
                assert(t[j] == romaji_from(s, st.1)[j - st.0.len()]);
            }
        }
    }
}


/// The syllabic n is always "nn", whatever follows it.
pub proof fn lemma_hatsuon_is_nn(s: Seq<char>, i: int)
    requires
        0 <= i < s.len(),
        s[i] == 'ん',
    ensures
        step_of(s, i) == (seq!['n', 'n'], i + 1),
{
    reveal_strlit("nn");
    assert forall|j: int| 0 <= j < 70 implies #[trigger] BASE@[j].0 != 'ん' by {
        if j == 0 {
            assert(BASE@[0].0 == 'あ');
        } else if j == 1 {
            assert(BASE@[1].0 == 'い');
        } else if j == 2 {
            assert(BASE@[2].0 == 'う');
        } else if j == 3 {
            assert(BASE@[3].0 == 'え');
        } else if j == 4 {
            assert(BASE@[4].0 == 'お');
        } else if j == 5 {
            assert(BASE@[5].0 == 'か');
        } else if j == 6 {
            assert(BASE@[6].0 == 'き');
        } else if j == 7 {
            assert(BASE@[7].0 == 'く');
        } else if j == 8 {
            assert(BASE@[8].0 == 'け');
        } else if j == 9 {
            assert(BASE@[9].0 == 'こ');
        } else if j == 10 {
            assert(BASE@[10].0 == 'が');
        } else if j == 11 {
            assert(BASE@[11].0 == 'ぎ');
        } else if j == 12 {
            assert(BASE@[12].0 == 'ぐ');
        } else if j == 13 {
            assert(BASE@[13].0 == 'げ');
        } else if j == 14 {
            assert(BASE@[14].0 == 'ご');
        } else if j == 15 {
            assert(BASE@[15].0 == 'さ');
        } else if j == 16 {
            assert(BASE@[16].0 == 'し');
        } else if j == 17 {
            assert(BASE@[17].0 == 'す');
        } else if j == 18 {
            assert(BASE@[18].0 == 'せ');
        } else if j == 19 {
            assert(BASE@[19].0 == 'そ');
        } else if j == 20 {
            assert(BASE@[20].0 == 'ざ');
        } else if j == 21 {
            assert(BASE@[21].0 == 'じ');
        } else if j == 22 {
            assert(BASE@[22].0 == 'ず');
        } else if j == 23 {
            assert(BASE@[23].0 == 'ぜ');
        } else if j == 24 {
            assert(BASE@[24].0 == 'ぞ');
        } else if j == 25 {
            assert(BASE@[25].0 == 'た');
        } else if j == 26 {
            assert(BASE@[26].0 == 'ち');
        } else if j == 27 {
            assert(BASE@[27].0 == 'つ');
        } else if j == 28 {
            assert(BASE@[28].0 == 'て');
        } else if j == 29 {
            assert(BASE@[29].0 == 'と');
        } else if j == 30 {
            assert(BASE@[30].0 == 'だ');
        } else if j == 31 {
            assert(BASE@[31].0 == 'ぢ');
        } else if j == 32 {
            assert(BASE@[32].0 == 'づ');
        } else if j == 33 {
            assert(BASE@[33].0 == 'で');
        } else if j == 34 {
            assert(BASE@[34].0 == 'ど');
        } else if j == 35 {
            assert(BASE@[35].0 == 'な');
        } else if j == 36 {
            assert(BASE@[36].0 == 'に');
        } else if j == 37 {
            assert(BASE@[37].0 == 'ぬ');
        } else if j == 38 {
            assert(BASE@[38].0 == 'ね');
        } else if j == 39 {
            assert(BASE@[39].0 == 'の');
        } else if j == 40 {
            assert(BASE@[40].0 == 'は');
        } else if j == 41 {
            assert(BASE@[41].0 == 'ひ');
        } else if j == 42 {
            assert(BASE@[42].0 == 'ふ');
        } else if j == 43 {
            assert(BASE@[43].0 == 'へ');
        } else if j == 44 {
            assert(BASE@[44].0 == 'ほ');
        } else if j == 45 {
            assert(BASE@[45].0 == 'ば');
        } else if j == 46 {
            assert(BASE@[46].0 == 'び');
        } else if j == 47 {
            assert(BASE@[47].0 == 'ぶ');
        } else if j == 48 {
            assert(BASE@[48].0 == 'べ');
        } else if j == 49 {
            assert(BASE@[49].0 == 'ぼ');
        } else if j == 50 {
            assert(BASE@[50].0 == 'ぱ');
        } else if j == 51 {
            assert(BASE@[51].0 == 'ぴ');
        } else if j == 52 {
            assert(BASE@[52].0 == 'ぷ');
        } else if j == 53 {
            assert(BASE@[53].0 == 'ぺ');
        } else if j == 54 {
            assert(BASE@[54].0 == 'ぽ');
        } else if j == 55 {
            assert(BASE@[55].0 == 'ま');
        } else if j == 56 {
            assert(BASE@[56].0 == 'み');
        } else if j == 57 {
            assert(BASE@[57].0 == 'む');
        } else if j == 58 {
            assert(BASE@[58].0 == 'め');
        } else if j == 59 {
            assert(BASE@[59].0 == 'も');
        } else if j == 60 {
            assert(BASE@[60].0 == 'や');
        } else if j == 61 {
            assert(BASE@[61].0 == 'ゆ');
        } else if j == 62 {
            assert(BASE@[62].0 == 'よ');
        } else if j == 63 {
            assert(BASE@[63].0 == 'ら');
        } else if j == 64 {
            assert(BASE@[64].0 == 'り');
        } else if j == 65 {
            assert(BASE@[65].0 == 'る');
        } else if j == 66 {
            assert(BASE@[66].0 == 'れ');
        } else if j == 67 {
            assert(BASE@[67].0 == 'ろ');
        } else if j == 68 {
            assert(BASE@[68].0 == 'わ');
        } else if j == 69 {
            assert(BASE@[69].0 == 'を');
        }
    }
    assert(BASE@[70] == ('ん', "nn"));
    crate::assoc::lemma_assoc_first(BASE@, 'ん', 70);
    crate::assoc::lemma_assoc_some(YOUON@, 'ん');
    assert(YOUON@[0] == ('き', 'k'));
    assert(YOUON@[1] == ('ぎ', 'g'));
    assert(YOUON@[2] == ('し', 's'));
    assert(YOUON@[3] == ('じ', 'z'));
    assert(YOUON@[4] == ('ち', 't'));
    assert(YOUON@[5] == ('ぢ', 'd'));
    assert(YOUON@[6] == ('に', 'n'));
    assert(YOUON@[7] == ('ひ', 'h'));
    assert(YOUON@[8] == ('び', 'b'));
    assert(YOUON@[9] == ('ぴ', 'p'));
    assert(YOUON@[10] == ('み', 'm'));
    assert(YOUON@[11] == ('り', 'r'));
    assert(assoc(YOUON@, 'ん') is None);
}

/// The romaji of a string's tail does not depend on what precedes it.
proof fn lemma_romaji_after(p: Seq<char>, t: Seq<char>, i: int)
    requires
        0 <= i,
    ensures
        romaji_from(p + t, p.len() + i) == romaji_from(t, i),
    decreases t.len() - i,
{
    let s = p + t;
    let j = p.len() + i;
    if i < t.len() {
        assert(s[j] == t[i]);
        if i + 1 < t.len() {
            assert(s[j + 1] == t[i + 1]);
        }
        assert(step_of(s, j).0 == step_of(t, i).0);
        assert(step_of(s, j).1 == p.len() + step_of(t, i).1);
        lemma_romaji_after(p, t, step_of(t, i).1);
    }
}

/// No contracted-sound head is a small tsu.
proof fn lemma_youon_head_not_sokuon(c: char)
    requires
        assoc(YOUON@, c) is Some,
    ensures
        c != 'っ',
{
    crate::assoc::lemma_assoc_some(YOUON@, c);
    assert(YOUON@[0] == ('き', 'k'));
    assert(YOUON@[1] == ('ぎ', 'g'));
    assert(YOUON@[2] == ('し', 's'));
    assert(YOUON@[3] == ('じ', 'z'));
    assert(YOUON@[4] == ('ち', 't'));
    assert(YOUON@[5] == ('ぢ', 'd'));
    assert(YOUON@[6] == ('に', 'n'));
    assert(YOUON@[7] == ('ひ', 'h'));
    assert(YOUON@[8] == ('び', 'b'));
    assert(YOUON@[9] == ('ぴ', 'p'));
    assert(YOUON@[10] == ('み', 'm'));
    assert(YOUON@[11] == ('り', 'r'));
}

/// A contracted sound is joined: an i-row head kana with consonant `k`
/// followed by a small ya, yu or yo reads as `k` then "ya", "yu" or "yo"
/// (きゃ kya, きゅ kyu, きょ kyo), whatever comes after it.
pub proof fn lemma_youon_joined(c: char, t: Seq<char>)
    requires
        assoc(YOUON@, c) is Some,
    ensures
        romaji_of(seq![c, 'ゃ'] + t) == seq![assoc(YOUON@, c)->0, 'y', 'a'] + romaji_of(t),
        romaji_of(seq![c, 'ゅ'] + t) == seq![assoc(YOUON@, c)->0, 'y', 'u'] + romaji_of(t),
        romaji_of(seq![c, 'ょ'] + t) == seq![assoc(YOUON@, c)->0, 'y', 'o'] + romaji_of(t),
{
    lemma_youon_head_not_sokuon(c);
    reveal_with_fuel(assoc, 4);
    reveal_strlit("ya");
    reveal_strlit("yu");
    reveal_strlit("yo");
    assert(SMALL_YOUON@[0] == ('ゃ', "ya"));
    assert(SMALL_YOUON@[1] == ('ゅ', "yu"));
    assert(SMALL_YOUON@[2] == ('ょ', "yo"));
    assert(assoc(SMALL_YOUON@, 'ゃ') == Some("ya"));
    assert(assoc(SMALL_YOUON@, 'ゅ') == Some("yu"));
    assert(assoc(SMALL_YOUON@, 'ょ') == Some("yo"));
    let k = assoc(YOUON@, c)->0;
    let ys = seq!['ゃ', 'ゅ', 'ょ'];
    let vs = seq!['a', 'u', 'o'];
    assert forall|n: int| 0 <= n < 3 implies romaji_of(seq![c, #[trigger] ys[n]] + t) == seq![k, 'y', vs[n]]
        + romaji_of(t) by {
        let y = ys[n];
        let p = seq![c, y];
        let s = p + t;
        assert(s[0] == c);
        assert(s[1] == y);
        assert(step_of(s, 0).0 =~= seq![k, 'y', vs[n]]);
        assert(step_of(s, 0).1 == 2);
        lemma_romaji_after(p, t, 0);
    }
    assert(ys[0] == 'ゃ');
    assert(ys[1] == 'ゅ');
    assert(ys[2] == 'ょ');
}

/// The consonant of a contracted sound is the head kana's own: the head
/// read alone is that consonant and "i" (き ki, し si, ち ti).
pub proof fn lemma_youon_consonant(c: char)
    requires
        assoc(YOUON@, c) is Some,
    ensures
        romaji_of(seq![c]) == seq![assoc(YOUON@, c)->0, 'i'],
{
    lemma_youon_head_not_sokuon(c);
    crate::assoc::lemma_assoc_some(YOUON@, c);
    reveal_with_fuel(assoc, 13);
    assert(romaji_from(seq![c], 1) == Seq::<char>::empty());
    assert(YOUON@[0] == ('き', 'k'));
    assert(YOUON@[1] == ('ぎ', 'g'));
    assert(YOUON@[2] == ('し', 's'));
    assert(YOUON@[3] == ('じ', 'z'));
    assert(YOUON@[4] == ('ち', 't'));
    assert(YOUON@[5] == ('ぢ', 'd'));
    assert(YOUON@[6] == ('に', 'n'));
    assert(YOUON@[7] == ('ひ', 'h'));
    assert(YOUON@[8] == ('び', 'b'));
    assert(YOUON@[9] == ('ぴ', 'p'));
    assert(YOUON@[10] == ('み', 'm'));
    assert(YOUON@[11] == ('り', 'r'));
    assert forall|j: int| 0 <= j < 65 implies #[trigger] BASE@[j].0 == BASE@[j].0 && (BASE@[j].0 == 'き' ==> j == 6) && (BASE@[j].0 == 'ぎ' ==> j == 11) && (BASE@[j].0 == 'し' ==> j == 16) && (BASE@[j].0 == 'じ' ==> j == 21) && (BASE@[j].0 == 'ち' ==> j == 26) && (BASE@[j].0 == 'ぢ' ==> j == 31) && (BASE@[j].0 == 'に' ==> j == 36) && (BASE@[j].0 == 'ひ' ==> j == 41) && (BASE@[j].0 == 'び' ==> j == 46) && (BASE@[j].0 == 'ぴ' ==> j == 51) && (BASE@[j].0 == 'み' ==> j == 56) && (BASE@[j].0 == 'り' ==> j == 64) by {
        if j == 0 {
            assert(BASE@[0].0 == 'あ');
        } else if j == 1 {
            assert(BASE@[1].0 == 'い');
        } else if j == 2 {
            assert(BASE@[2].0 == 'う');
        } else if j == 3 {
            assert(BASE@[3].0 == 'え');
        } else if j == 4 {
            assert(BASE@[4].0 == 'お');
        } else if j == 5 {
            assert(BASE@[5].0 == 'か');
        } else if j == 6 {
            assert(BASE@[6].0 == 'き');
        } else if j == 7 {
            assert(BASE@[7].0 == 'く');
        } else if j == 8 {
            assert(BASE@[8].0 == 'け');
        } else if j == 9 {
            assert(BASE@[9].0 == 'こ');
        } else if j == 10 {
            assert(BASE@[10].0 == 'が');
        } else if j == 11 {
            assert(BASE@[11].0 == 'ぎ');
        } else if j == 12 {
            assert(BASE@[12].0 == 'ぐ');
        } else if j == 13 {
            assert(BASE@[13].0 == 'げ');
        } else if j == 14 {
            assert(BASE@[14].0 == 'ご');
        } else if j == 15 {
            assert(BASE@[15].0 == 'さ');
        } else if j == 16 {
            assert(BASE@[16].0 == 'し');
        } else if j == 17 {
            assert(BASE@[17].0 == 'す');
        } else if j == 18 {
            assert(BASE@[18].0 == 'せ');
        } else if j == 19 {
            assert(BASE@[19].0 == 'そ');
        } else if j == 20 {
            assert(BASE@[20].0 == 'ざ');
        } else if j == 21 {
            assert(BASE@[21].0 == 'じ');
        } else if j == 22 {
            assert(BASE@[22].0 == 'ず');
        } else if j == 23 {
            assert(BASE@[23].0 == 'ぜ');
        } else if j == 24 {
            assert(BASE@[24].0 == 'ぞ');
        } else if j == 25 {
            assert(BASE@[25].0 == 'た');
        } else if j == 26 {
            assert(BASE@[26].0 == 'ち');
        } else if j == 27 {
            assert(BASE@[27].0 == 'つ');
        } else if j == 28 {
            assert(BASE@[28].0 == 'て');
        } else if j == 29 {
            assert(BASE@[29].0 == 'と');
        } else if j == 30 {
            assert(BASE@[30].0 == 'だ');
        } else if j == 31 {
            assert(BASE@[31].0 == 'ぢ');
        } else if j == 32 {
            assert(BASE@[32].0 == 'づ');
        } else if j == 33 {
            assert(BASE@[33].0 == 'で');
        } else if j == 34 {
            assert(BASE@[34].0 == 'ど');
        } else if j == 35 {
            assert(BASE@[35].0 == 'な');
        } else if j == 36 {
            assert(BASE@[36].0 == 'に');
        } else if j == 37 {
            assert(BASE@[37].0 == 'ぬ');
        } else if j == 38 {
            assert(BASE@[38].0 == 'ね');
        } else if j == 39 {
            assert(BASE@[39].0 == 'の');
        } else if j == 40 {
            assert(BASE@[40].0 == 'は');
        } else if j == 41 {
            assert(BASE@[41].0 == 'ひ');
        } else if j == 42 {
            assert(BASE@[42].0 == 'ふ');
        } else if j == 43 {
            assert(BASE@[43].0 == 'へ');
        } else if j == 44 {
            assert(BASE@[44].0 == 'ほ');
        } else if j == 45 {
            assert(BASE@[45].0 == 'ば');
        } else if j == 46 {
            assert(BASE@[46].0 == 'び');
        } else if j == 47 {
            assert(BASE@[47].0 == 'ぶ');
        } else if j == 48 {
            assert(BASE@[48].0 == 'べ');
        } else if j == 49 {
            assert(BASE@[49].0 == 'ぼ');
        } else if j == 50 {
            assert(BASE@[50].0 == 'ぱ');
        } else if j == 51 {
            assert(BASE@[51].0 == 'ぴ');
        } else if j == 52 {
            assert(BASE@[52].0 == 'ぷ');
        } else if j == 53 {
            assert(BASE@[53].0 == 'ぺ');
        } else if j == 54 {
            assert(BASE@[54].0 == 'ぽ');
        } else if j == 55 {
            assert(BASE@[55].0 == 'ま');
        } else if j == 56 {
            assert(BASE@[56].0 == 'み');
        } else if j == 57 {
            assert(BASE@[57].0 == 'む');
        } else if j == 58 {
            assert(BASE@[58].0 == 'め');
        } else if j == 59 {
            assert(BASE@[59].0 == 'も');
        } else if j == 60 {
            assert(BASE@[60].0 == 'や');
        } else if j == 61 {
            assert(BASE@[61].0 == 'ゆ');
        } else if j == 62 {
            assert(BASE@[62].0 == 'よ');
        } else if j == 63 {
            assert(BASE@[63].0 == 'ら');
        } else if j == 64 {
            assert(BASE@[64].0 == 'り');
        }
    }
    if c == 'き' {
        reveal_strlit("ki");
        assert(YOUON@[0] == ('き', 'k'));
        assert(BASE@[6] == ('き', "ki"));
        crate::assoc::lemma_assoc_first(BASE@, c, 6);
        assert(assoc(BASE@, c) == Some(BASE@[6].1));
        assert(step_of(seq![c], 0).0 == BASE@[6].1@);
        assert(romaji_of(seq![c]) == seq![assoc(YOUON@, c)->0, 'i']);
    }
    if c == 'ぎ' {
        reveal_strlit("gi");
        assert(YOUON@[1] == ('ぎ', 'g'));
        assert(BASE@[11] == ('ぎ', "gi"));
        crate::assoc::lemma_assoc_first(BASE@, c, 11);
        assert(assoc(BASE@, c) == Some(BASE@[11].1));
        assert(step_of(seq![c], 0).0 == BASE@[11].1@);
        assert(romaji_of(seq![c]) == seq![assoc(YOUON@, c)->0, 'i']);
    }
    if c == 'し' {
        reveal_strlit("si");
        assert(YOUON@[2] == ('し', 's'));
        assert(BASE@[16] == ('し', "si"));
        crate::assoc::lemma_assoc_first(BASE@, c, 16);
        assert(assoc(BASE@, c) == Some(BASE@[16].1));
        assert(step_of(seq![c], 0).0 == BASE@[16].1@);
        assert(romaji_of(seq![c]) == seq![assoc(YOUON@, c)->0, 'i']);
    }
    if c == 'じ' {
        reveal_strlit("zi");
        assert(YOUON@[3] == ('じ', 'z'));
        assert(BASE@[21] == ('じ', "zi"));
        crate::assoc::lemma_assoc_first(BASE@, c, 21);
        assert(assoc(BASE@, c) == Some(BASE@[21].1));
        assert(step_of(seq![c], 0).0 == BASE@[21].1@);
        assert(romaji_of(seq![c]) == seq![assoc(YOUON@, c)->0, 'i']);
    }
    if c == 'ち' {
        reveal_strlit("ti");
        assert(YOUON@[4] == ('ち', 't'));
        assert(BASE@[26] == ('ち', "ti"));
        crate::assoc::lemma_assoc_first(BASE@, c, 26);
        assert(assoc(BASE@, c) == Some(BASE@[26].1));
        assert(step_of(seq![c], 0).0 == BASE@[26].1@);
        assert(romaji_of(seq![c]) == seq![assoc(YOUON@, c)->0, 'i']);
    }
    if c == 'ぢ' {
        reveal_strlit("di");
        assert(YOUON@[5] == ('ぢ', 'd'));
        assert(BASE@[31] == ('ぢ', "di"));
        crate::assoc::lemma_assoc_first(BASE@, c, 31);
        assert(assoc(BASE@, c) == Some(BASE@[31].1));
        assert(step_of(seq![c], 0).0 == BASE@[31].1@);
        assert(romaji_of(seq![c]) == seq![assoc(YOUON@, c)->0, 'i']);
    }
    if c == 'に' {
        reveal_strlit("ni");
        assert(YOUON@[6] == ('に', 'n'));
        assert(BASE@[36] == ('に', "ni"));
        crate::assoc::lemma_assoc_first(BASE@, c, 36);
        assert(assoc(BASE@, c) == Some(BASE@[36].1));
        assert(step_of(seq![c], 0).0 == BASE@[36].1@);
        assert(romaji_of(seq![c]) == seq![assoc(YOUON@, c)->0, 'i']);
    }
    if c == 'ひ' {
        reveal_strlit("hi");
        assert(YOUON@[7] == ('ひ', 'h'));
        assert(BASE@[41] == ('ひ', "hi"));
        crate::assoc::lemma_assoc_first(BASE@, c, 41);
        assert(assoc(BASE@, c) == Some(BASE@[41].1));
        assert(step_of(seq![c], 0).0 == BASE@[41].1@);
        assert(romaji_of(seq![c]) == seq![assoc(YOUON@, c)->0, 'i']);
    }
    if c == 'び' {
        reveal_strlit("bi");
        assert(YOUON@[8] == ('び', 'b'));
        assert(BASE@[46] == ('び', "bi"));
        crate::assoc::lemma_assoc_first(BASE@, c, 46);
        assert(assoc(BASE@, c) == Some(BASE@[46].1));
        assert(step_of(seq![c], 0).0 == BASE@[46].1@);
        assert(romaji_of(seq![c]) == seq![assoc(YOUON@, c)->0, 'i']);
    }
    if c == 'ぴ' {
        reveal_strlit("pi");
        assert(YOUON@[9] == ('ぴ', 'p'));
        assert(BASE@[51] == ('ぴ', "pi"));
        crate::assoc::lemma_assoc_first(BASE@, c, 51);
        assert(assoc(BASE@, c) == Some(BASE@[51].1));
        assert(step_of(seq![c], 0).0 == BASE@[51].1@);
        assert(romaji_of(seq![c]) == seq![assoc(YOUON@, c)->0, 'i']);
    }
    if c == 'み' {
        reveal_strlit("mi");
        assert(YOUON@[10] == ('み', 'm'));
        assert(BASE@[56] == ('み', "mi"));
        crate::assoc::lemma_assoc_first(BASE@, c, 56);
        assert(assoc(BASE@, c) == Some(BASE@[56].1));
        assert(step_of(seq![c], 0).0 == BASE@[56].1@);
        assert(romaji_of(seq![c]) == seq![assoc(YOUON@, c)->0, 'i']);
    }
    if c == 'り' {
        reveal_strlit("ri");
        assert(YOUON@[11] == ('り', 'r'));
        assert(BASE@[64] == ('り', "ri"));
        crate::assoc::lemma_assoc_first(BASE@, c, 64);
        assert(assoc(BASE@, c) == Some(BASE@[64].1));
        assert(step_of(seq![c], 0).0 == BASE@[64].1@);
        assert(romaji_of(seq![c]) == seq![assoc(YOUON@, c)->0, 'i']);
    }
    assert(step_of(seq![c], 0).1 == 1);
}

} // verus!
