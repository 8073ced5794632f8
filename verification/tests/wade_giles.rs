use dodo_zh::convert_pinyin_to_wade_giles;
use dodo_zh::wade_giles::{
    convert_cedict_pinyin_sentence_to_wade, convert_single_pinyin_to_wade_giles, WadeGiles,
    WadeGilesWorker,
};

fn single(s: &str) -> String {
    let chars: Vec<char> = s.chars().collect();
    convert_single_pinyin_to_wade_giles(&chars).into_iter().collect()
}

#[test]
fn wade_giles_expect_to_parse_pinyin_to_yade() {
    let wade = WadeGiles("rong".to_string()).convert_pinyin_to_wade_giles();

    assert_eq!(wade, "jung");
}

#[test]
fn wade_giles_expect_to_parse_other_pinyin_to_yade() {
    let wade = WadeGiles("zong".to_string()).convert_pinyin_to_wade_giles();

    assert_eq!(wade, "tsung");
}

#[test]
fn wade_giles_expect_to_keep_the_tones() {
    let wade = WadeGiles("chong4".to_string()).convert_pinyin_to_wade_giles();

    assert_eq!(wade, "ch'ung4");
}

#[test]
fn wade_giles_expect_to_parse_cedict_pinyin_to_wades() {
    let wade = WadeGiles("xia4".to_string()).convert_pinyin_to_wade_giles();

    assert_eq!(wade, "hsia4");
}

#[test]
fn mod_expect_to_parse_pinyin_to_yade() {
    let pinyin = "rong";
    let wade = single(pinyin);

    assert_eq!(wade, "jung");
}

#[test]
fn mod_expect_to_parse_other_pinyin_to_yade() {
    let pinyin = "zong";
    let wade = single(pinyin);

    assert_eq!(wade, "tsung");
}

#[test]
fn mod_expect_to_keep_the_tones() {
    let pinyin = "chong4";
    let wade = single(pinyin);

    assert_eq!(wade, "ch'ung4");
}

#[test]
fn mod_expect_to_parse_cedict_pinyin_to_wades() {
    let pinyin = "xia4 zhu4";
    let wade = convert_cedict_pinyin_sentence_to_wade(pinyin).unwrap();

    assert_eq!(wade, "hsia4 chu4");
}

#[test]
fn every_first_letter_rule() {
    assert_eq!(single("ba"), "pa");
    assert_eq!(single("cha"), "ch'a");
    assert_eq!(single("ci"), "tz'u");
    assert_eq!(single("cong"), "ts'ng");
    assert_eq!(single("cu"), "ts'");
    assert_eq!(single("ca"), "ts'a");
    assert_eq!(single("da"), "ta");
    assert_eq!(single("ga"), "ka");
    assert_eq!(single("ji"), "chi");
    assert_eq!(single("ka"), "k'a");
    assert_eq!(single("pa"), "p'a");
    assert_eq!(single("qi"), "ch'i");
    assert_eq!(single("ra"), "ja");
    assert_eq!(single("ta"), "t'a");
    assert_eq!(single("xi"), "hsi");
    assert_eq!(single("zha"), "cha");
    assert_eq!(single("zi"), "tzu");
    assert_eq!(single("za"), "tsa");
    assert_eq!(single("yi"), "i");
    assert_eq!(single("ya"), "ya");
    assert_eq!(single("ma"), "ma");
    assert_eq!(single(""), "");
}

#[test]
fn every_last_letters_rule() {
    assert_eq!(single("lie"), "lieh");
    assert_eq!(single("l\u{fc}e"), "l\u{fc}eh");
    assert_eq!(single("luo"), "lo");
    assert_eq!(single("men"), "mun");
    assert_eq!(single("er"), "erh");
    assert_eq!(single("hui"), "huei");
    assert_eq!(single("ye"), "yeh");
    assert_eq!(single("lian"), "lien");
    assert_eq!(single("long"), "lung");
    assert_eq!(single("lang"), "lang");
}

#[test]
fn only_the_last_digit_is_set_aside() {
    assert_eq!(single("ba12"), "pa12");
    assert_eq!(single("4"), "4");
    assert_eq!(single("men2"), "mun2");
}

#[test]
fn worker_stages_one_by_one() {
    let mut worker = WadeGilesWorker("xian".to_string());
    worker.process_first_character_set();
    assert_eq!(worker.0, "hsian");
    worker.process_end_characters(2);
    assert_eq!(worker.0, "hsian");
    worker.process_end_characters(3);
    assert_eq!(worker.0, "hsien");
    worker.process_end_characters(0);
    assert_eq!(worker.0, "hsien");
    worker.process_end_characters(9);
    assert_eq!(worker.0, "hsien");
    let mut two = WadeGilesWorker("ong".to_string());
    two.process_end_characters(2);
    assert_eq!(two.0, "ong");
}

#[test]
fn wade_giles_sentence_is_joined_with_one_space() {
    assert_eq!(convert_pinyin_to_wade_giles("rong").unwrap(), "jung");
    assert_eq!(convert_pinyin_to_wade_giles("chong4").unwrap(), "ch'ung4");
    assert_eq!(convert_pinyin_to_wade_giles("xia4").unwrap(), "hsia4");
    assert_eq!(convert_pinyin_to_wade_giles(" yi1  dong4\tbu4 dong4 ").unwrap(), "i1 tung4 pu4 tung4");
    assert_eq!(convert_pinyin_to_wade_giles("").unwrap(), "");
}
