use dodo_zh::pinyin::{
    get_char, get_vowel_position, mark_syllable, number_decomposed, replace_u_tone_with_accent,
    replace_vowel_with_accent, PinyinAccent, PinyinNumber,
};
use dodo_zh::{convert_pinyin_accent_to_pinyin_number, convert_pinyin_tone_number_to_tone_mark};

fn chars(s: &str) -> Vec<char> {
    s.chars().collect()
}

#[test]
fn pinyin_accent_expect_to_convert_numeri_pinyin_to_accent() {
    let word = PinyinAccent("xian1".to_string()).replace_tone_numbers_with_tone_marks();

    assert_eq!(word.unwrap(), "xiān");
}

#[test]
fn pinyin_accent_expect_to_convert_simple_pinyin_to_accent() {
    let word = PinyinAccent("chi1".to_string()).replace_tone_numbers_with_tone_marks();

    assert_eq!(word.unwrap(), "chī");
}

#[test]
fn pinyin_accent_expect_to_convert_special_tone_marker() {
    let word: Option<String> =
        PinyinAccent("nu:3".to_string()).replace_tone_numbers_with_tone_marks();

    assert_eq!(word.unwrap(), "nǚ");
}

#[test]
fn expect_to_convert_pinyin_number_not_end() {
    let word: Option<String> =
        PinyinAccent("ping4".to_string()).replace_tone_numbers_with_tone_marks();

    assert_eq!(word.unwrap(), "pìng");
}

#[test]
fn mod_expect_to_convert_numeri_pinyin_to_accent() {
    let word = "xian1";

    let expected_word = replace_vowel_with_accent(word).unwrap();
    assert_eq!(expected_word, "xiān");
}

#[test]
fn mod_expect_to_convert_simple_pinyin_to_accent() {
    let word = "chi1";

    let expected_word = replace_vowel_with_accent(word).unwrap();
    assert_eq!(expected_word, "chī");
}

#[test]
fn mod_expect_to_convert_special_tone_marker() {
    let word = "nu:3";

    let expected_word = replace_u_tone_with_accent(word);
    assert_eq!(expected_word.unwrap(), "nǚ");
}

#[test]
fn expect_to_generate_pinyin_number_from_pinyin_accent() {
    let p = PinyinNumber("wǒ".to_string()).into_number();

    assert_eq!(p, "wo3");
}

#[test]
fn expect_to_generate_pinyin_number_from_accent_middle() {
    let p = PinyinNumber("huān".to_string()).into_number();

    assert_eq!(p, "huan1");
}

#[test]
fn number_to_mark_of_wo3() {
    let word = PinyinAccent("wo3".to_string()).replace_tone_numbers_with_tone_marks();
    assert_eq!(word.unwrap(), "wo\u{30c}");
}

#[test]
fn each_tone_digit_has_its_mark() {
    assert_eq!(mark_syllable(&chars("ma1")).unwrap(), chars("ma\u{304}"));
    assert_eq!(mark_syllable(&chars("ma2")).unwrap(), chars("ma\u{301}"));
    assert_eq!(mark_syllable(&chars("ma3")).unwrap(), chars("ma\u{30c}"));
    assert_eq!(mark_syllable(&chars("ma4")).unwrap(), chars("ma\u{300}"));
}

#[test]
fn a_digit_that_is_no_tone_is_dropped_without_a_mark() {
    assert_eq!(mark_syllable(&chars("de5")).unwrap(), chars("de"));
    assert_eq!(mark_syllable(&chars("ma0")).unwrap(), chars("ma"));
}

#[test]
fn each_tone_digit_has_its_toned_umlaut() {
    assert_eq!(mark_syllable(&chars("lu:1")).unwrap(), chars("l\u{1d6}"));
    assert_eq!(mark_syllable(&chars("lu:2")).unwrap(), chars("l\u{1d8}"));
    assert_eq!(mark_syllable(&chars("lu:3")).unwrap(), chars("l\u{1da}"));
    assert_eq!(mark_syllable(&chars("lu:4")).unwrap(), chars("l\u{1dc}"));
    assert_eq!(mark_syllable(&chars("lu:5")).unwrap(), chars("lu"));
}

#[test]
fn a_plain_u_takes_the_combining_mark() {
    assert_eq!(mark_syllable(&chars("bu4")).unwrap(), chars("bu\u{300}"));
    assert_eq!(mark_syllable(&chars("lu:e4")).unwrap(), chars("lue\u{300}"));
}

#[test]
fn the_tone_goes_behind_a_medial() {
    assert_eq!(get_vowel_position(&chars("xian")), Some(2));
    assert_eq!(get_vowel_position(&chars("shui")), Some(3));
    assert_eq!(get_vowel_position(&chars("liu")), Some(2));
    assert_eq!(get_vowel_position(&chars("hao")), Some(1));
    assert_eq!(get_vowel_position(&chars("ping")), Some(1));
    assert_eq!(get_vowel_position(&chars("lu")), Some(1));
    assert_eq!(get_vowel_position(&chars("ng")), None);
    assert_eq!(get_vowel_position(&chars("")), None);
}

#[test]
fn a_syllable_without_digit_is_unchanged() {
    assert_eq!(mark_syllable(&chars("hao")).unwrap(), chars("hao"));
    assert_eq!(mark_syllable(&chars("nu:")).unwrap(), chars("nu:"));
    assert_eq!(mark_syllable(&chars("")).unwrap(), chars(""));
    assert_eq!(replace_vowel_with_accent("wo").unwrap(), "wo");
}

#[test]
fn a_syllable_without_vowel_has_no_marked_form() {
    assert_eq!(mark_syllable(&chars("ng2")), None);
    assert_eq!(mark_syllable(&chars("3")), None);
    assert!(PinyinAccent("hm4".to_string()).replace_tone_numbers_with_tone_marks().is_none());
    assert!(matches!(replace_vowel_with_accent("ng2"), Err(dodo_zh::error::Error::Parse(_))));
}

#[test]
fn a_short_word_has_no_umlaut_form() {
    assert!(matches!(replace_u_tone_with_accent("n"), Err(dodo_zh::error::Error::Parse(_))));
    assert!(matches!(replace_u_tone_with_accent(""), Err(dodo_zh::error::Error::Parse(_))));
    assert_eq!(replace_u_tone_with_accent("lu:4").unwrap(), "l\u{1dc}");
    assert_eq!(replace_u_tone_with_accent("lu:").unwrap(), "l");
}

#[test]
fn the_digit_of_each_mark() {
    assert_eq!(get_char('\u{304}'), Some('1'));
    assert_eq!(get_char('\u{301}'), Some('2'));
    assert_eq!(get_char('\u{30c}'), Some('3'));
    assert_eq!(get_char('\u{300}'), Some('4'));
    assert_eq!(get_char('a'), None);
    assert_eq!(get_char('\u{308}'), None);
}

#[test]
fn the_last_mark_gives_the_digit() {
    assert_eq!(number_decomposed(&chars("a\u{301}o\u{30c}")), chars("ao3"));
    assert_eq!(number_decomposed(&chars("ma")), chars("ma"));
    assert_eq!(number_decomposed(&chars("")), chars(""));
}

#[test]
fn a_composed_letter_is_decomposed_before_the_marks_are_read() {
    assert_eq!(PinyinNumber("h\u{1ce}o".to_string()).into_number(), "hao3");
    assert_eq!(PinyinNumber("l\u{1dc}".to_string()).into_number(), "lu\u{308}4");
}

#[test]
fn mark_to_number_sentence() {
    let out = convert_pinyin_accent_to_pinyin_number("x\u{1d0} hu\u{101}n").unwrap();
    assert_eq!(out, "xi3 huan1");
}

#[test]
fn number_to_mark_sentence_keeps_other_words() {
    let out = convert_pinyin_tone_number_to_tone_mark("  wo3   hen3 hao3 , 42 ok  ").unwrap();
    assert_eq!(out, "wo\u{30c} he\u{30c}n ha\u{30c}o , 42 ok");
    assert_eq!(convert_pinyin_tone_number_to_tone_mark("").unwrap(), "");
    assert_eq!(convert_pinyin_tone_number_to_tone_mark(" \t\n").unwrap(), "");
}

#[test]
fn number_to_mark_and_back() {
    for word in ["wo3", "xian1", "ping4", "hao3", "shui3", "liu2", "e4", "zhuang1", "bu4"] {
        let marked = PinyinAccent(word.to_string())
            .replace_tone_numbers_with_tone_marks()
            .unwrap();
        assert_ne!(marked, word);
        assert_eq!(PinyinNumber(marked).into_number(), word);
    }
}
