use dodo_zh::cedict::Item;
use dodo_zh::hsk::{find_level, HSKLevel, HskData};
use dodo_zh::record::{join_strings, parse_cedict_file, AsRecord, Cedict, CedictItem};
use dodo_zh::zhuyin::Zhuyin;

fn pairs(rows: &[(&str, &str)]) -> Vec<(String, String)> {
    rows.iter().map(|(sound, value)| (sound.to_string(), value.to_string())).collect()
}

fn standard_tables() -> Zhuyin {
    let initials = [
        ("b", "ㄅ"),
        ("p", "ㄆ"),
        ("m", "ㄇ"),
        ("f", "ㄈ"),
        ("d", "ㄉ"),
        ("t", "ㄊ"),
        ("n", "ㄋ"),
        ("l", "ㄌ"),
        ("g", "ㄍ"),
        ("k", "ㄎ"),
        ("h", "ㄏ"),
        ("j", "ㄐ"),
        ("q", "ㄑ"),
        ("x", "ㄒ"),
        ("zh", "ㄓ"),
        ("ch", "ㄔ"),
        ("sh", "ㄕ"),
        ("r", "ㄖ"),
        ("z", "ㄗ"),
        ("c", "ㄘ"),
        ("s", "ㄙ"),
        ("zhi", "ㄓ"),
        ("chi", "ㄔ"),
        ("shi", "ㄕ"),
    ];
    let finals = [
        ("a", "ㄚ"),
        ("o", "ㄛ"),
        ("e", "ㄜ"),
        ("ai", "ㄞ"),
        ("ei", "ㄟ"),
        ("ao", "ㄠ"),
        ("ou", "ㄡ"),
        ("an", "ㄢ"),
        ("en", "ㄣ"),
        ("ang", "ㄤ"),
        ("eng", "ㄥ"),
        ("er", "ㄦ"),
        ("i", "ㄧ"),
        ("yi", "ㄧ"),
        ("ia", "ㄧㄚ"),
        ("ya", "ㄧㄚ"),
        ("ie", "ㄧㄝ"),
        ("ye", "ㄧㄝ"),
        ("yai", "ㄧㄞ"),
        ("iao", "ㄧㄠ"),
        ("yao", "ㄧㄠ"),
        ("iu", "ㄧㄡ"),
        ("you", "ㄧㄡ"),
        ("ian", "ㄧㄢ"),
        ("yan", "ㄧㄢ"),
        ("in", "ㄧㄣ"),
        ("yin", "ㄧㄣ"),
        ("iang", "ㄧㄤ"),
        ("yang", "ㄧㄤ"),
        ("ing", "ㄧㄥ"),
        ("ying", "ㄧㄥ"),
        ("u", "ㄨ"),
        ("wu", "ㄨ"),
        ("uo", "ㄨㄛ"),
        ("wo", "ㄨㄛ"),
        ("uai", "ㄨㄞ"),
        ("wai", "ㄨㄞ"),
        ("ui", "ㄨㄟ"),
        ("wei", "ㄨㄟ"),
        ("uan", "ㄨㄢ"),
        ("wan", "ㄨㄢ"),
        ("un", "ㄨㄣ"),
        ("wen", "ㄨㄣ"),
        ("uang", "ㄨㄤ"),
        ("wang", "ㄨㄤ"),
        ("ong", "ㄨㄥ"),
        ("weng", "ㄨㄥ"),
        ("yu", "ㄩ"),
        ("yue", "ㄩㄝ"),
        ("yuan", "ㄩㄢ"),
        ("yun", "ㄩㄣ"),
        ("iong", "ㄩㄥ"),
        ("yong", "ㄩㄥ"),
    ];
    Zhuyin::new(pairs(&initials), pairs(&finals))
}

fn row(level: &str, word: &str) -> HskData {
    HskData { level: level.to_string(), s_character: word.to_string() }
}

#[test]
fn expect_to_parse_cedict_line() {
    let line = r"一動不動 一动不动 [yi1 dong4 bu4 dong4] /motionless/";
    let mm = vec![row("hsk1", "一动不动")];

    let zh = standard_tables();

    let cedict = Cedict::parse(line, &mm, &zh);
    assert!(cedict.is_ok());

    let res = cedict.unwrap();

    assert_eq!(res.traditional_chinese, "一動不動");
    assert_eq!(res.simplified_chinese, "一动不动");
    assert_eq!(res.pinyin, "yi1 dong4 bu4 dong4");
    assert_eq!(
        res.pinyin_accent,
        "yi\u{304} do\u{300}ng bu\u{300} do\u{300}ng"
    );
    assert_eq!(res.translations, "/motionless/");
    assert_eq!(res.zhuyin, "ㄧ ㄉㄨㄥ\u{300} ㄅㄨ\u{300} ㄉㄨㄥ\u{300}");
    assert_eq!(res.wade, "i1 tung4 pu4 tung4");
    assert_eq!(res.level, Some(HSKLevel::HSK1));
}

#[test]
fn a_line_is_read_up_to_what_it_lacks() {
    let zh = standard_tables();
    let none: Vec<HskData> = Vec::new();
    let message = |line: &str| match Cedict::parse(line, &none, &zh) {
        Err(dodo_zh::error::Error::Parse(m)) => m,
        _ => panic!("the line was read"),
    };
    assert_eq!(message("   "), "Unable to get the traditional chinese character");
    assert_eq!(message(" 好 "), "Unable to get the simplified chinese character");
    assert_eq!(message("好 好 hao3 /good/"), "Unable to found the pinyin");
    let read = Cedict::parse("好  好   [hao3]   /good/  to  like/  ", &none, &zh).unwrap();
    assert_eq!(read.pinyin, "hao3");
    assert_eq!(read.translations, "/good/ to like/");
    assert_eq!(read.level, None);
    assert_eq!(read.zhuyin, "ㄏㄠ\u{30c}");
}

#[test]
fn lines_are_read_up_to_the_first_that_lacks_a_part() {
    let zh = standard_tables();
    let hsk = vec![row("hsk3", "好")];
    let lines: Vec<String> = vec![
        "# a comment".to_string(),
        "好 好 [hao3] /good/".to_string(),
        "% metadata".to_string(),
        "摯 挚 [zhi4] /sincere/".to_string(),
    ];
    let read = parse_cedict_file(&lines, &hsk, &zh).unwrap();
    assert_eq!(read.len(), 2);
    assert_eq!(read[0].simplified_chinese, "好");
    assert_eq!(read[0].level, Some(HSKLevel::HSK3));
    assert_eq!(read[1].simplified_chinese, "挚");
    assert_eq!(read[1].wade, "chi4");
    let bad: Vec<String> = vec!["好 好 [hao3] /good/".to_string(), "好".to_string(), "".to_string()];
    match parse_cedict_file(&bad, &hsk, &zh) {
        Err(dodo_zh::error::Error::Parse(m)) => {
            assert_eq!(m, "Unable to get the simplified chinese character")
        }
        _ => panic!("the lines were read"),
    }
    assert!(parse_cedict_file(&Vec::new(), &hsk, &zh).unwrap().is_empty());
}

#[test]
fn the_last_row_of_a_word_gives_its_level() {
    let rows = vec![row("hsk2", "好"), row("hsk7-9", "挚友"), row("hsk5", "好"), row("nothing", "友")];
    assert_eq!(find_level(&rows, "好"), Some(HSKLevel::HSK5));
    assert_eq!(find_level(&rows, "挚友"), Some(HSKLevel::HSK7));
    assert_eq!(find_level(&rows, "友"), Some(HSKLevel::HSK1));
    assert_eq!(find_level(&rows, "我"), None);
}

#[test]
fn level_names_and_positions() {
    let names = ["hsk1", "hsk2", "hsk3", "hsk4", "hsk5", "hsk6"];
    let levels = [HSKLevel::HSK1, HSKLevel::HSK2, HSKLevel::HSK3, HSKLevel::HSK4, HSKLevel::HSK5,
        HSKLevel::HSK6];
    for i in 0..6 {
        assert_eq!(HSKLevel::from_string(names[i]), levels[i]);
        assert_eq!(levels[i].to_string(), names[i]);
        assert_eq!(HSKLevel::from(i), levels[i]);
    }
    assert_eq!(HSKLevel::from_string("hsk7-9"), HSKLevel::HSK7);
    assert_eq!(HSKLevel::HSK7.to_string(), "hsk7");
    assert_eq!(HSKLevel::from_string("hsk7"), HSKLevel::HSK7);
    assert_eq!(HSKLevel::from_string("hsk8"), HSKLevel::HSK1);
    assert_eq!(HSKLevel::from_string(""), HSKLevel::HSK1);
    assert_eq!(HSKLevel::from(6), HSKLevel::HSK1);
    assert_eq!(HSKLevel::from(usize::MAX), HSKLevel::HSK1);
    assert_eq!(HSKLevel::default(), HSKLevel::HSK1);
}

#[test]
fn an_entry_is_enriched_field_by_field() {
    let zh = standard_tables();
    let item = Item::try_from("摯友 挚友 [zhi4 you3] /intimate friend/close friend/".to_string()).unwrap();
    let mut entry = CedictItem::new(item);
    assert_eq!(entry.as_record(), vec!["摯友", "挚友", "zhi4,you3", "intimate friend,close friend", "", "", "", ""]);
    entry.generate_pinyin_tone_marker();
    assert_eq!(entry.pinyin_tone_marker, vec!["zhi\u{300}", "yo\u{30c}u"]);
    entry.generate_zhuyin_from_pinyin(&zh);
    assert_eq!(entry.zhuyins, vec!["ㄓ", "ㄧㄡ"]);
    entry.generate_wade_giles_from_pinyin();
    assert_eq!(entry.wades, vec!["chi4", "you3"]);
    entry.fill_hsk_field(&vec![row("hsk6", "挚友")]);
    assert_eq!(entry.hsk_level, Some(HSKLevel::HSK6));
    entry.fill_hsk_field(&vec![row("hsk2", "好")]);
    assert_eq!(entry.hsk_level, Some(HSKLevel::HSK6));
    assert_eq!(
        entry.to_record(),
        vec![
            "摯友",
            "挚友",
            "zhi4,you3",
            "intimate friend,close friend",
            "zhi\u{300},yo\u{30c}u",
            "ㄓ,ㄧㄡ",
            "chi4,you3",
            "hsk6"
        ]
    );
    assert_eq!(join_strings(&Vec::new()), "");
}
