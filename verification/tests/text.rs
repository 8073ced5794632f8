use dodo_zh::text::{
    append_chars, chars_of, copy_chars, is_digit_char, is_space_char, join_rows, matches_at,
    replace, same_chars, split_words, string_of,
};

fn chars(s: &str) -> Vec<char> {
    s.chars().collect()
}

#[test]
fn strings_and_characters() {
    assert_eq!(chars_of("n\u{1da} 好"), vec!['n', '\u{1da}', ' ', '好']);
    assert_eq!(string_of(&vec!['n', '\u{1da}', ' ', '好']), "n\u{1da} 好");
    assert_eq!(chars_of(""), Vec::<char>::new());
    assert_eq!(copy_chars(&chars("abc")), chars("abc"));
    let mut v = chars("ab");
    append_chars(&mut v, &chars("cd"));
    assert_eq!(v, chars("abcd"));
    assert!(same_chars(&chars("abc"), &chars("abc")));
    assert!(!same_chars(&chars("abc"), &chars("abd")));
    assert!(!same_chars(&chars("abc"), &chars("ab")));
}

#[test]
fn spaces_and_digits() {
    for c in [' ', '\t', '\n', '\r', '\u{b}', '\u{c}', '\u{85}', '\u{a0}', '\u{1680}', '\u{2000}',
        '\u{200a}', '\u{2028}', '\u{2029}', '\u{202f}', '\u{205f}', '\u{3000}'] {
        assert!(is_space_char(c));
        assert!(c.is_whitespace());
    }
    for c in ['a', '0', '\u{8}', '\u{e}', '\u{200b}', '\u{feff}', '好'] {
        assert!(!is_space_char(c));
        assert!(!c.is_whitespace());
    }
    assert!(is_digit_char('0') && is_digit_char('9') && is_digit_char('4'));
    assert!(!is_digit_char('/') && !is_digit_char(':') && !is_digit_char('a'));
}

#[test]
fn words_are_the_runs_between_spaces() {
    assert_eq!(split_words(&chars("  a bc\t\td  ")), vec![chars("a"), chars("bc"), chars("d")]);
    assert_eq!(split_words(&chars("abc")), vec![chars("abc")]);
    assert_eq!(split_words(&chars("   ")), Vec::<Vec<char>>::new());
    assert_eq!(split_words(&chars("")), Vec::<Vec<char>>::new());
    assert_eq!(split_words(&chars("a\u{3000}b")), vec![chars("a"), chars("b")]);
}

#[test]
fn joining_puts_the_separator_between() {
    assert_eq!(join_rows(&vec![chars("a"), chars("bc"), chars("")], &chars(", ")), chars("a, bc, "));
    assert_eq!(join_rows(&vec![chars("a")], &chars(", ")), chars("a"));
    assert_eq!(join_rows(&Vec::new(), &chars(", ")), chars(""));
}

#[test]
fn replacing_goes_from_left_to_right() {
    assert_eq!(replace(&chars("aaa"), &chars("aa"), &chars("b")), chars("ba"));
    assert_eq!(replace(&chars("abcabc"), &chars("bc"), &chars("")), chars("aa"));
    assert_eq!(replace(&chars("abc"), &chars(""), &chars("x")), chars("abc"));
    assert_eq!(replace(&chars("abc"), &chars("abcd"), &chars("x")), chars("abc"));
    assert_eq!(replace(&chars("abc"), &chars("c"), &chars("cc")), chars("abcc"));
    assert!(matches_at(&chars("abc"), &chars("bc"), 1));
    assert!(!matches_at(&chars("abc"), &chars("bc"), 2));
    assert!(!matches_at(&chars("abc"), &chars("bc"), 7));
    assert!(matches_at(&chars("abc"), &chars(""), 3));
}
