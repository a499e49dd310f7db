use ksrs::japanese::{chars_of, keep, JapaneseExt, Script};

#[test]
fn kana_of_a_character() {
    assert!('あ'.is_hiragana());
    assert!(!'ア'.is_hiragana());
    assert!('ア'.is_katakana());
    assert!(!'あ'.is_katakana());
    assert!('あ'.is_kana() && 'ア'.is_kana());
    assert!('あ'.has_kana());
    assert!(!'日'.is_kana());
    assert!(!'a'.is_kana());
    assert!('\u{3040}'.is_hiragana() && '\u{309F}'.is_hiragana());
    assert!(!'\u{303F}'.is_hiragana() && !'\u{30A0}'.is_hiragana());
    assert!('\u{30A0}'.is_katakana() && '\u{30FF}'.is_katakana());
    assert!(!'\u{3100}'.is_katakana());
}

#[test]
fn kanji_of_a_character() {
    assert!('日'.is_kanji());
    assert!('日'.has_kanji());
    assert_eq!(1, '日'.kanji_count());
    assert_eq!(0, 'あ'.kanji_count());
    assert!(!'あ'.is_kanji());
    assert!(!'A'.is_kanji());
    assert!('\u{3400}'.is_kanji() && '\u{4DBF}'.is_kanji());
    assert!(!'\u{4DC0}'.is_kanji());
    assert!('\u{4E00}'.is_kanji() && '\u{9FFF}'.is_kanji());
    assert!('\u{F900}'.is_kanji() && '\u{FAFF}'.is_kanji());
    assert!('０'.is_kanji() && '９'.is_kanji());
    assert!('\u{20000}'.is_kanji() && '\u{2A6DF}'.is_kanji());
    assert!(!'\u{2A6E0}'.is_kanji());
    assert!('\u{29E8A}'.is_kanji());
}

#[test]
fn symbols_and_roman_letters_of_a_character() {
    assert!('。'.is_symbol());
    assert!('々'.is_symbol());
    assert!('-'.is_symbol());
    assert!('×'.is_symbol());
    assert!('α'.is_symbol());
    assert!('■'.is_symbol());
    assert!('！'.is_symbol());
    assert!('。'.has_symbol());
    assert!(!'a'.is_symbol());
    assert!('Ａ'.is_roman_letter());
    assert!('ｚ'.is_roman_letter());
    assert!('‐'.is_roman_letter());
    assert!('−'.is_roman_letter());
    assert!('\u{2000}'.is_roman_letter());
    assert!('\u{20001}'.is_roman_letter());
    assert!('Ａ'.has_roman_letter());
    assert!(!'A'.is_roman_letter());
    assert!(!'あ'.is_roman_letter());
}

#[test]
fn japanese_of_a_character() {
    assert!('あ'.is_japanese());
    assert!('ア'.is_japanese());
    assert!('日'.is_japanese());
    assert!('。'.is_japanese());
    assert!('Ａ'.is_japanese());
    assert!('日'.has_japanese());
    assert!(!'a'.is_japanese());
    assert!(!'1'.is_japanese());
}

#[test]
fn small_kana_and_particles_of_a_character() {
    assert!('ゃ'.is_small_hiragana() && 'ゅ'.is_small_hiragana() && 'ょ'.is_small_hiragana());
    assert!(!'や'.is_small_hiragana());
    assert!('ャ'.is_small_katakana() && 'ュ'.is_small_katakana() && 'ョ'.is_small_katakana());
    assert!(!'ヤ'.is_small_katakana());
    assert!('ゃ'.is_small_kana() && 'ャ'.is_small_kana());
    assert!(!'あ'.is_small_kana());
    for c in ['を', 'の', 'に', 'と', 'が', 'か', 'は', 'も', 'で', 'へ', 'や'] {
        assert!(c.is_particle());
    }
    assert!(!'あ'.is_particle());
    assert!(!'ヲ'.is_particle());
}

#[test]
fn scripts_of_a_text() {
    assert!("ひらがな".is_hiragana());
    assert!(!"ひらガな".is_hiragana());
    assert!("カタカナ".is_katakana());
    assert!(!"カタかナ".is_katakana());
    assert!("ひらカナ".is_kana());
    assert!(!"ひら日".is_kana());
    assert!("abcあ".has_kana());
    assert!(!"abc日".has_kana());
    assert!("日本語".is_kanji());
    assert!(!"日本語だ".is_kanji());
    assert!("これは日本".has_kanji());
    assert!(!"これは".has_kanji());
    assert!("。々".is_symbol());
    assert!("a。".has_symbol());
    assert!(!"abc".has_symbol());
    assert!("ＡＢ".is_roman_letter());
    assert!("aＡ".has_roman_letter());
    assert!(!"ab".has_roman_letter());
}

#[test]
fn japanese_of_a_text() {
    assert!("日本語のテキスト。".is_japanese());
    assert!(!"日本語 text".is_japanese());
    assert!("some 日本語".has_japanese());
    assert!(!"some text".has_japanese());
    assert_eq!(3, "日本語のテキスト".kanji_count());
    assert_eq!(0, "text".kanji_count());
    assert_eq!(2, "日日".kanji_count());
}

#[test]
fn small_kana_and_particles_of_a_text() {
    assert!("ゃゅょ".is_small_hiragana());
    assert!("ャュョ".is_small_katakana());
    assert!("ゃゅ".is_small_kana());
    assert!("ャュ".is_small_kana());
    assert!(!"ゃュ".is_small_kana());
    assert!("をの".is_particle());
    assert!(!"をあ".is_particle());
}

#[test]
fn empty_text_is_everything_and_has_nothing() {
    assert!("".is_kanji() && "".is_kana() && "".is_japanese() && "".is_particle());
    assert!("".is_small_kana());
    assert!(!"".has_kanji() && !"".has_kana() && !"".has_japanese());
    assert_eq!(0, "".kanji_count());
}

#[test]
fn script_tests_a_character() {
    assert!(Script::Kanji.test('日'));
    assert!(!Script::Kanji.test('あ'));
    assert!(Script::Kana.test('あ'));
    assert!(Script::Japanese.test('ア'));
    assert!(Script::SmallKana.test('ャ'));
    assert!(Script::Particle.test('を'));
}

#[test]
fn keep_filters_in_order() {
    let chars = chars_of("a日bあ本日");
    assert_eq!(vec!['a', '日', 'b', 'あ', '本', '日'], chars);
    assert_eq!(vec!['日', '本', '日'], keep(&chars, Script::Kanji));
    assert_eq!(vec!['あ'], keep(&chars, Script::Hiragana));
    assert!(keep(&chars, Script::Katakana).is_empty());
}
