//! Pinyin to Wade-Giles: a substitution chosen by the first letters of the
//! syllable, followed by two substitutions chosen by its last letters.
use crate::error::Error;
use crate::text::{chars_of, copy_chars, ends_with, is_digit, is_digit_char, join, join_rows,
    matches_at, replace, replace_all, rows, split_words, starts_with, string_of, words};
use vstd::prelude::*;

verus! {

/// The substitution made on a syllable according to its first letters.
pub open spec fn first_stage(s: Seq<char>) -> Seq<char> {
    if s.len() == 0 {
        s
    } else if s[0] == 'b' {
        replace_all(s, "b"@, "p"@)
    } else if s[0] == 'c' {
        if starts_with(s, "ch"@) {
            replace_all(s, "ch"@, "ch'"@)
        } else if starts_with(s, "ci"@) {
            replace_all(s, "ci"@, "tz'u"@)
        } else if starts_with(s, "co"@) || starts_with(s, "cu"@) {
            replace_all(replace_all(replace_all(s, "c"@, "t"@), "o"@, "s'"@), "u"@, "s'"@)
        } else {
            replace_all(s, "c"@, "ts'"@)
        }
    } else if s[0] == 'd' {
        replace_all(s, "d"@, "t"@)
    } else if s[0] == 'g' {
        replace_all(s, "g"@, "k"@)
    } else if s[0] == 'j' {
        replace_all(s, "j"@, "ch"@)
    } else if s[0] == 'k' {
        replace_all(s, "k"@, "k'"@)
    } else if s[0] == 'p' {
        replace_all(s, "p"@, "p'"@)
    } else if s[0] == 'q' {
        replace_all(s, "q"@, "ch'"@)
    } else if s[0] == 'r' {
        replace_all(s, "r"@, "j"@)
    } else if s[0] == 't' {
        replace_all(s, "t"@, "t'"@)
    } else if s[0] == 'x' {
        replace_all(s, "x"@, "hs"@)
    } else if s[0] == 'z' {
        if starts_with(s, "zh"@) {
            replace_all(s, "zh"@, "ch"@)
        } else if starts_with(s, "zi"@) {
            replace_all(s, "zi"@, "tzu"@)
        } else {
            replace_all(s, "z"@, "ts"@)
        }
    } else if s[0] == 'y' {
        if starts_with(s, "yi"@) {
            replace_all(s, "yi"@, "i"@)
        } else {
            s
        }
    } else {
        s
    }
}

/// Whether the last `k` characters of `s` are exactly `pat`.
pub open spec fn ends_in(s: Seq<char>, k: nat, pat: Seq<char>) -> bool {
    pat.len() == k && ends_with(s, pat)
}

/// The substitution made on a syllable according to its last `k` letters.
pub open spec fn end_stage(s: Seq<char>, k: nat) -> Seq<char> {
    if ends_in(s, k, "ie"@) {
        replace_all(s, "ie"@, "ieh"@)
    } else if ends_in(s, k, "üe"@) {
        replace_all(s, "üe"@, "üeh"@)
    } else if ends_in(s, k, "uo"@) {
        replace_all(s, "uo"@, "o"@)
    } else if ends_in(s, k, "en"@) {
        replace_all(s, "en"@, "un"@)
    } else if ends_in(s, k, "er"@) {
        replace_all(s, "er"@, "erh"@)
    } else if ends_in(s, k, "ui"@) {
        replace_all(s, "ui"@, "uei"@)
    } else if ends_in(s, k, "ye"@) {
        replace_all(s, "ye"@, "yeh"@)
    } else if ends_in(s, k, "ian"@) {
        replace_all(s, "ian"@, "ien"@)
    } else if ends_in(s, k, "ong"@) {
        replace_all(s, "ong"@, "ung"@)
    } else {
        s
    }
}

/// The three stages in order, on a syllable without its tone digit.
pub open spec fn cascade(s: Seq<char>) -> Seq<char> {
    end_stage(end_stage(first_stage(s), 2), 3)
}

/// The Wade-Giles form of one pinyin syllable: a final digit is set aside,
/// the rest goes through the cascade, and the digit is put back.
pub open spec fn wade_giles_of(s: Seq<char>) -> Seq<char> {
    if s.len() > 0 && is_digit(s.last()) {
        cascade(s.drop_last()).push(s.last())
    } else {
        cascade(s)
    }
}

/// The Wade-Giles form of a sentence: each word converted, with one space
/// between them.
pub open spec fn wade_giles_sentence(text: Seq<char>) -> Seq<char> {
    join(words(text).map_values(|w: Seq<char>| wade_giles_of(w)), seq![' '])
}

fn swap(text: &Vec<char>, pat: &str, rep: &str) -> (r: Vec<char>)
    ensures
        r@ == replace_all(text@, pat@, rep@),
{
    let p = chars_of(pat);
    let q = chars_of(rep);
    replace(text, &p, &q)
}

fn begins(text: &Vec<char>, pat: &str) -> (r: bool)
    ensures
        r == starts_with(text@, pat@),
{
    let p = chars_of(pat);
    matches_at(text, &p, 0)
}

fn ends(text: &Vec<char>, k: usize, pat: &str) -> (r: bool)
    ensures
        r == ends_in(text@, k as nat, pat@),
{
    let p = chars_of(pat);
    if p.len() != k || p.len() > text.len() {
        return false;
    }
    matches_at(text, &p, text.len() - p.len())
}

/// Applies the first stage to a syllable.
pub fn apply_first_stage(text: &Vec<char>) -> (r: Vec<char>)
    ensures
        r@ == first_stage(text@),
{
    if text.len() == 0 {
        return copy_chars(text);
    }
    let c = text[0];
    if c == 'b' {
        swap(text, "b", "p")
    } else if c == 'c' {
        if begins(text, "ch") {
            swap(text, "ch", "ch'")
        } else if begins(text, "ci") {
            swap(text, "ci", "tz'u")
        } else if begins(text, "co") || begins(text, "cu") {
            let a = swap(text, "c", "t");
            let b = swap(&a, "o", "s'");
            swap(&b, "u", "s'")
        } else {
            swap(text, "c", "ts'")
        }
    } else if c == 'd' {
        swap(text, "d", "t")
    } else if c == 'g' {
        swap(text, "g", "k")
    } else if c == 'j' {
        swap(text, "j", "ch")
    } else if c == 'k' {
        swap(text, "k", "k'")
    } else if c == 'p' {
        swap(text, "p", "p'")
    } else if c == 'q' {
        swap(text, "q", "ch'")
    } else if c == 'r' {
        swap(text, "r", "j")
    } else if c == 't' {
        swap(text, "t", "t'")
    } else if c == 'x' {
        swap(text, "x", "hs")
    } else if c == 'z' {
        if begins(text, "zh") {
            swap(text, "zh", "ch")
        } else if begins(text, "zi") {
            swap(text, "zi", "tzu")
        } else {
            swap(text, "z", "ts")
        }
    } else if c == 'y' {
        if begins(text, "yi") {
            swap(text, "yi", "i")
        } else {
            copy_chars(text)
        }
    } else {
        copy_chars(text)
    }
}

/// Applies the stage that looks at the last `k` letters of a syllable.
pub fn apply_end_stage(text: &Vec<char>, k: usize) -> (r: Vec<char>)
    ensures
        r@ == end_stage(text@, k as nat),
{
    if ends(text, k, "ie") {
        swap(text, "ie", "ieh")
    } else if ends(text, k, "üe") {
        swap(text, "üe", "üeh")
    } else if ends(text, k, "uo") {
        swap(text, "uo", "o")
    } else if ends(text, k, "en") {
        swap(text, "en", "un")
    } else if ends(text, k, "er") {
        swap(text, "er", "erh")
    } else if ends(text, k, "ui") {
        swap(text, "ui", "uei")
    } else if ends(text, k, "ye") {
        swap(text, "ye", "yeh")
    } else if ends(text, k, "ian") {
        swap(text, "ian", "ien")
    } else if ends(text, k, "ong") {
        swap(text, "ong", "ung")
    } else {
        copy_chars(text)
    }
}

/// Converts one pinyin syllable, given as characters, to Wade-Giles.
pub fn convert_single_pinyin_to_wade_giles(syllable: &Vec<char>) -> (r: Vec<char>)
    ensures
        r@ == wade_giles_of(syllable@),
{
    let n = syllable.len();
    if n > 0 && is_digit_char(syllable[n - 1]) {
        let mut base = copy_chars(syllable);
        let digit = base.pop();
        assert(base@ =~= syllable@.drop_last());
        let first = apply_first_stage(&base);
        let second = apply_end_stage(&first, 2);
        let mut third = apply_end_stage(&second, 3);
        third.push(syllable[n - 1]);
        third
    } else {
        let first = apply_first_stage(syllable);
        let second = apply_end_stage(&first, 2);
        apply_end_stage(&second, 3)
    }
}

/// The working text of a conversion, open to one stage at a time.
#[derive(Debug)]
pub struct WadeGilesWorker(pub String);

impl WadeGilesWorker {
    /// Rewrites the text according to its first letters.
    pub fn process_first_character_set(&mut self)
        ensures
            final(self).0@ == first_stage(old(self).0@),
    {
        let text = chars_of(self.0.as_str());
        let out = apply_first_stage(&text);
        self.0 = string_of(&out);
    }

    /// Rewrites the text according to its last `lookback_index` letters.
    pub fn process_end_characters(&mut self, lookback_index: usize)
        ensures
            final(self).0@ == end_stage(old(self).0@, lookback_index as nat),
    {
        let text = chars_of(self.0.as_str());
        let out = apply_end_stage(&text, lookback_index);
        self.0 = string_of(&out);
    }
}

/// A pinyin syllable to be converted to Wade-Giles.
#[derive(Debug)]
pub struct WadeGiles(pub String);

impl WadeGiles {
    /// The Wade-Giles form of the syllable.
    pub fn convert_pinyin_to_wade_giles(&self) -> (r: String)
        ensures
            r@ == wade_giles_of(self.0@),
    {
        let text = chars_of(self.0.as_str());
        let out = convert_single_pinyin_to_wade_giles(&text);
        string_of(&out)
    }
}

/// Converts every word of a sentence, given as characters, to Wade-Giles.
pub fn wade_giles_words(text: &Vec<char>) -> (r: Vec<char>)
    ensures
        r@ == wade_giles_sentence(text@),
{
    let tokens = split_words(text);
    let mut parts: Vec<Vec<char>> = Vec::new();
    let mut i: usize = 0;
    while i < tokens.len()
        invariant
            i <= tokens.len(),
            parts.len() == i,
            forall|j: int| 0 <= j < i ==> (#[trigger] parts@[j])@ == wade_giles_of(tokens@[j]@),
        decreases tokens.len() - i,
    {
        let one = convert_single_pinyin_to_wade_giles(&tokens[i]);
        parts.push(one);
        i += 1;
    }
    assert(rows(parts@) =~= words(text@).map_values(|w: Seq<char>| wade_giles_of(w)));
    let sep: Vec<char> = vec![' '];
    assert(sep@ =~= seq![' ']);
    join_rows(&parts, &sep)
}

/// Converts a sentence of pinyin syllables to Wade-Giles, word by word.
pub fn convert_cedict_pinyin_sentence_to_wade(pinyin: &str) -> (r: Result<String, Error>)
    ensures
        r is Ok,
        r->Ok_0@ == wade_giles_sentence(pinyin@),
{
    let text = chars_of(pinyin);
    let out = wade_giles_words(&text);
    Ok(string_of(&out))
}

} // verus!
