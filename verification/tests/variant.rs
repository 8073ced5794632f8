use dodo_zh::error::Error;
use dodo_zh::variant::{convert_with, detect_with, initialize_dictionaries, KeyVariant};
use dodo_zh::{convert_text_to_desired_variant, detect_which_variant};

fn sample_lines() -> Vec<String> {
    let lines = [
        "# CC-CEDICT",
        "#! version=1",
        "% a line of metadata",
        "她 她 [ta1] /she/",
        "是 是 [shi4] /is/are/am/yes/to be/",
        "我 我 [wo3] /I/me/my/",
        "的 的 [de5] /of/~'s (possessive particle)/",
        "最 最 [zui4] /most/the most/-est (superlative suffix)/",
        "好 好 [hao3] /good/well/proper/",
        "好 好 [hao4] /to be fond of/to have a tendency to/",
        "摯 挚 [zhi4] /sincere/",
        "友 友 [you3] /friend/",
        "摯友 挚友 [zhi4 you3] /intimate friend/close friend/",
        "一動不動 一动不动 [yi1 dong4 bu4 dong4] /motionless/",
    ];
    lines.iter().map(|l| l.to_string()).collect()
}

#[test]
fn converter_expect_to_transform_traditional_to_simplified() {
    let text = "她是我的最好摯友";

    let res = initialize_dictionaries(&sample_lines());
    assert!(res.is_ok());

    let converted = convert_text_to_desired_variant(
        &sample_lines(),
        text,
        KeyVariant::Traditional,
        KeyVariant::Simplified,
    )
    .unwrap();

    assert_eq!(converted, "她是我的最好挚友");
}

#[test]
fn converter_expect_to_convert_simplified_into_traditional() {
    let text = "她是我的最好挚友";

    let res = initialize_dictionaries(&sample_lines());
    assert!(res.is_ok());

    let converted = convert_text_to_desired_variant(
        &sample_lines(),
        text,
        KeyVariant::Simplified,
        KeyVariant::Traditional,
    )
    .unwrap();

    assert_eq!(converted, "她是我的最好摯友");
}

#[test]
fn variant_expect_to_transform_traditional_to_simplified() {
    let text = "她是我的最好摯友";

    let res = initialize_dictionaries(&sample_lines());
    assert!(res.is_ok());
    let dictionaries = res.unwrap();

    let converted = KeyVariant::convert_text_to_desired_variant(
        text,
        KeyVariant::Traditional,
        KeyVariant::Simplified,
        Some(&dictionaries),
    )
    .unwrap();

    assert_eq!(converted, "她是我的最好挚友");
}

#[test]
fn variant_expect_to_convert_simplified_into_traditional() {
    let text = "她是我的最好挚友";

    let res = initialize_dictionaries(&sample_lines());
    assert!(res.is_ok());
    let dictionaries = res.unwrap();

    let converted = KeyVariant::convert_text_to_desired_variant(
        text,
        KeyVariant::Simplified,
        KeyVariant::Traditional,
        Some(&dictionaries),
    )
    .unwrap();

    assert_eq!(converted, "她是我的最好摯友");
}

#[test]
fn expect_to_detect_traditional() {
    let res = initialize_dictionaries(&sample_lines());
    assert!(res.is_ok());
    let dictionaries = res.unwrap();

    let res = KeyVariant::which_variant("她是我的最好摯友", Some(&dictionaries));
    assert_eq!(res.unwrap(), KeyVariant::Traditional);
}

#[test]
fn expect_to_detect_simplified() {
    let res = initialize_dictionaries(&sample_lines());
    assert!(res.is_ok());
    let dictionaries = res.unwrap();

    let res = KeyVariant::which_variant("她是我的最好挚友", Some(&dictionaries));
    assert_eq!(res.unwrap(), KeyVariant::Simplified);
}

#[test]
fn expect_to_detect_traditional_with_unicode() {
    let res = KeyVariant::detect_variant_with_unicode("這個牛肉的顏色是𫞩的");
    assert_eq!(res, KeyVariant::Traditional);
}

#[test]
fn without_dictionaries_there_is_no_result() {
    assert_eq!(
        KeyVariant::convert_text_to_desired_variant(
            "她是我的最好挚友",
            KeyVariant::Simplified,
            KeyVariant::Traditional,
            None
        ),
        None
    );
    assert_eq!(KeyVariant::which_variant("她是我的最好挚友", None), None);
}

#[test]
fn conversion_without_dictionaries_is_an_error() {
    let lines = sample_lines();
    let dictionaries = initialize_dictionaries(&lines).unwrap();
    let failed = convert_with(None, "她是我的最好挚友", KeyVariant::Simplified, KeyVariant::Traditional);
    match failed {
        Err(Error::Lookup(m)) => assert_eq!(m, "Unable to convert content to target key variant"),
        _ => panic!("a conversion without dictionaries"),
    }
    assert_eq!(
        convert_with(Some(&dictionaries), "她是我的最好挚友", KeyVariant::Simplified, KeyVariant::Traditional)
            .unwrap(),
        "她是我的最好摯友"
    );
    assert_eq!(detect_with(Some(&dictionaries), "她是我的最好摯友"), KeyVariant::Traditional);
    assert_eq!(detect_with(None, "她是我的最好摯友"), KeyVariant::Simplified);
    assert_eq!(detect_with(None, "這個牛肉的顏色是𫞩的"), KeyVariant::Traditional);
}

#[test]
fn detection_through_the_source_or_the_code_points() {
    let lines = sample_lines();
    assert_eq!(detect_which_variant(Some(&lines), "她是我的最好摯友").unwrap(), KeyVariant::Traditional);
    assert_eq!(detect_which_variant(Some(&lines), "她是我的最好挚友").unwrap(), KeyVariant::Simplified);
    assert_eq!(detect_which_variant(None, "她是我的最好摯友").unwrap(), KeyVariant::Simplified);
    assert_eq!(detect_which_variant(None, "這個牛肉的顏色是𫞩的").unwrap(), KeyVariant::Traditional);
    assert_eq!(detect_which_variant(None, "").unwrap(), KeyVariant::Simplified);
    assert_eq!(KeyVariant::default(), KeyVariant::Simplified);
}

#[test]
fn the_edges_of_the_six_blocks() {
    let inside = ['\u{3400}', '\u{4dbf}', '\u{20000}', '\u{2a6df}', '\u{2a700}', '\u{2b73f}',
        '\u{2b740}', '\u{2b81f}', '\u{2b820}', '\u{2ceaf}', '\u{2ceb0}', '\u{2ebef}'];
    for c in inside {
        assert_eq!(KeyVariant::detect_variant_with_unicode(&c.to_string()), KeyVariant::Traditional);
    }
    let outside = ['\u{33ff}', '\u{4dc0}', '\u{4e00}', '\u{1ffff}', '\u{2a6e0}', '\u{2a6ff}',
        '\u{2ebf0}', 'a', ' '];
    for c in outside {
        assert_eq!(KeyVariant::detect_variant_with_unicode(&c.to_string()), KeyVariant::Simplified);
    }
}

#[test]
fn a_bad_source_fails_conversion_and_detection() {
    let lines = vec!["好 好 hao3 /good/".to_string()];
    assert!(initialize_dictionaries(&lines).is_err());
    assert!(convert_text_to_desired_variant(&lines, "好", KeyVariant::Simplified, KeyVariant::Traditional).is_err());
    assert!(detect_which_variant(Some(&lines), "好").is_err());
}

#[test]
fn there_and_back_on_covered_text() {
    let lines = sample_lines();
    let there = convert_text_to_desired_variant(
        &lines,
        "她是我的最好挚友",
        KeyVariant::Simplified,
        KeyVariant::Traditional,
    )
    .unwrap();
    let back = convert_text_to_desired_variant(
        &lines,
        &there,
        KeyVariant::Traditional,
        KeyVariant::Simplified,
    )
    .unwrap();
    assert_ne!(there, "她是我的最好挚友");
    assert_eq!(back, "她是我的最好挚友");
}

#[test]
fn other_characters_stay_and_do_not_count() {
    let lines = sample_lines();
    let plain = "Hello, World! 123 \t-_.;?";
    for (from, to) in [
        (KeyVariant::Simplified, KeyVariant::Traditional),
        (KeyVariant::Traditional, KeyVariant::Simplified),
    ] {
        assert_eq!(convert_text_to_desired_variant(&lines, plain, from, to).unwrap(), plain);
    }
    assert_eq!(
        convert_text_to_desired_variant(
            &lines,
            "a 挚, b 友!",
            KeyVariant::Simplified,
            KeyVariant::Traditional
        )
        .unwrap(),
        "a 摯, b 友!"
    );
    assert_eq!(detect_which_variant(Some(&lines), plain).unwrap(), KeyVariant::Simplified);
    assert_eq!(detect_which_variant(None, plain).unwrap(), KeyVariant::Simplified);
    assert_eq!(detect_which_variant(Some(&lines), "a 摯 b").unwrap(), KeyVariant::Traditional);
}
