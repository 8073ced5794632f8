//! Pinyin tones, written either as a digit behind the syllable or as a mark
//! over one of its vowels, and the conversion in both directions.
use crate::error::Error;
use crate::text::{append_chars, chars_of, copy_chars, decompose, is_digit, is_digit_char, join,
    join_rows, nfd_of, rows, split_words, string_of, words};
use vstd::prelude::*;

verus! {

/// The five letters that can carry a tone.
pub open spec fn is_vowel(c: char) -> bool {
    c == 'a' || c == 'e' || c == 'i' || c == 'o' || c == 'u'
}

/// The two vowels that can stand before the main vowel of a syllable.
pub open spec fn is_medial(c: char) -> bool {
    c == 'i' || c == 'u'
}

/// The combining mark of a tone digit: macron, acute, caron, grave for `1` to
/// `4`, and nothing for any other character.
pub open spec fn tone_mark(digit: char) -> Seq<char> {
    if digit == '1' {
        seq!['\u{0304}']
    } else if digit == '2' {
        seq!['\u{0301}']
    } else if digit == '3' {
        seq!['\u{030c}']
    } else if digit == '4' {
        seq!['\u{0300}']
    } else {
        Seq::empty()
    }
}

/// The letter `ü` with the tone of a digit: `ǖ`, `ǘ`, `ǚ`, `ǜ` for `1` to
/// `4`, and nothing for any other character.
pub open spec fn umlaut_mark(digit: char) -> Seq<char> {
    if digit == '1' {
        seq!['ǖ']
    } else if digit == '2' {
        seq!['ǘ']
    } else if digit == '3' {
        seq!['ǚ']
    } else if digit == '4' {
        seq!['ǜ']
    } else {
        Seq::empty()
    }
}

/// The digit that a combining tone mark stands for.
pub open spec fn tone_digit(mark: char) -> Option<char> {
    if mark == '\u{0304}' {
        Some('1')
    } else if mark == '\u{0301}' {
        Some('2')
    } else if mark == '\u{030c}' {
        Some('3')
    } else if mark == '\u{0300}' {
        Some('4')
    } else {
        None
    }
}

/// The text without the colons that mark a `u` as `ü`.
pub open spec fn without_colons(s: Seq<char>) -> Seq<char> {
    s.filter(|c: char| c != ':')
}

/// The position of the first vowel at or after `at`.
pub open spec fn first_vowel_from(s: Seq<char>, at: int) -> Option<int>
    decreases s.len() - at,
{
    if at < 0 || at >= s.len() {
        None
    } else if is_vowel(s[at]) {
        Some(at)
    } else {
        first_vowel_from(s, at + 1)
    }
}

/// The position of the vowel that carries the tone: the first vowel, or the
/// one right behind it where the first is a medial followed by a vowel.
pub open spec fn tone_position(s: Seq<char>) -> Option<int> {
    match first_vowel_from(s, 0) {
        None => None,
        Some(p) => if is_medial(s[p]) && p + 1 < s.len() && is_vowel(s[p + 1]) {
            Some(p + 1)
        } else {
            Some(p)
        },
    }
}

/// The syllable `base` with the tone of `digit` written at position `at`: a
/// `u` that was marked as `ü` becomes the toned `ü`, any other letter gets
/// the combining mark behind it.
pub open spec fn with_tone(base: Seq<char>, at: int, digit: char, umlaut: bool) -> Seq<char> {
    if base[at] == 'u' && umlaut && umlaut_mark(digit).len() > 0 {
        base.take(at) + umlaut_mark(digit) + base.skip(at + 1)
    } else {
        base.take(at + 1) + tone_mark(digit) + base.skip(at + 1)
    }
}

/// The tone-mark form of a numbered syllable. A syllable that does not end in
/// a digit once its colons are gone is its own tone-mark form. One that ends
/// in a digit and has no vowel has none.
pub open spec fn marked(s: Seq<char>) -> Option<Seq<char>> {
    let t = without_colons(s);
    if t.len() == 0 || !is_digit(t.last()) {
        Some(s)
    } else {
        match tone_position(t.drop_last()) {
            None => None,
            Some(p) => Some(with_tone(t.drop_last(), p, t.last(), s.contains(':'))),
        }
    }
}

/// The tone-mark form of a word inside a sentence: a word that has none
/// stays as it is.
pub open spec fn marked_or_same(s: Seq<char>) -> Seq<char> {
    match marked(s) {
        Some(t) => t,
        None => s,
    }
}

/// The text without its combining tone marks.
pub open spec fn unmarked(d: Seq<char>) -> Seq<char> {
    d.filter(|c: char| tone_digit(c) is None)
}

/// The digit of the last combining tone mark of the text.
pub open spec fn last_tone(d: Seq<char>) -> Option<char>
    decreases d.len(),
{
    if d.len() == 0 {
        None
    } else if tone_digit(d.last()) is Some {
        tone_digit(d.last())
    } else {
        last_tone(d.drop_last())
    }
}

/// The numbered form of a decomposed syllable: the tone marks are taken out
/// and the digit of the last one is put at the end.
pub open spec fn numbered(d: Seq<char>) -> Seq<char> {
    match last_tone(d) {
        Some(digit) => unmarked(d).push(digit),
        None => unmarked(d),
    }
}

/// The tone-mark form of a sentence: each word converted, with one space
/// between them.
pub open spec fn marked_sentence(text: Seq<char>) -> Seq<char> {
    join(words(text).map_values(|w: Seq<char>| marked_or_same(w)), seq![' '])
}

/// The numbered form of a sentence: each word decomposed and converted, with
/// one space between them.
pub open spec fn numbered_sentence(text: Seq<char>) -> Seq<char> {
    join(words(text).map_values(|w: Seq<char>| numbered(nfd_of(w))), seq![' '])
}

proof fn lemma_unmarked_push(s: Seq<char>, c: char)
    ensures
        unmarked(s.push(c)) == if tone_digit(c) is None {
            unmarked(s).push(c)
        } else {
            unmarked(s)
        },
        last_tone(s.push(c)) == if tone_digit(c) is Some {
            tone_digit(c)
        } else {
            last_tone(s)
        },
{
    reveal(Seq::filter);
    assert(s.push(c).drop_last() =~= s);
}

proof fn lemma_without_colons_push(s: Seq<char>, c: char)
    ensures
        without_colons(s.push(c)) == if c != ':' {
            without_colons(s).push(c)
        } else {
            without_colons(s)
        },
        s.push(c).contains(':') == (s.contains(':') || c == ':'),
{
    reveal(Seq::filter);
    assert(s.push(c).drop_last() =~= s);
    if s.contains(':') {
        let j = choose|j: int| 0 <= j < s.len() && s[j] == ':';
        assert(s.push(c)[j] == ':');
    }
    if c == ':' {
        assert(s.push(c)[s.len() as int] == ':');
    }
    if s.push(c).contains(':') && c != ':' {
        let j = choose|j: int| 0 <= j < s.push(c).len() && s.push(c)[j] == ':';
        assert(s[j] == ':');
    }
}

proof fn lemma_filters_of_empty()
    ensures
        unmarked(Seq::empty()) == Seq::<char>::empty(),
        without_colons(Seq::empty()) == Seq::<char>::empty(),
        !Seq::<char>::empty().contains(':'),
{
    reveal(Seq::filter);
}

/// Tells whether a character is a vowel.
pub fn is_vowel_char(c: char) -> (b: bool)
    ensures
        b == is_vowel(c),
{
    c == 'a' || c == 'e' || c == 'i' || c == 'o' || c == 'u'
}

/// The digit that a combining tone mark stands for.
pub fn get_char(ch: char) -> (r: Option<char>)
    ensures
        r == tone_digit(ch),
{
    if ch == '\u{0304}' {
        Some('1')
    } else if ch == '\u{0301}' {
        Some('2')
    } else if ch == '\u{030c}' {
        Some('3')
    } else if ch == '\u{0300}' {
        Some('4')
    } else {
        None
    }
}

fn tone_mark_chars(digit: char) -> (r: Vec<char>)
    ensures
        r@ == tone_mark(digit),
{
    let mut out: Vec<char> = Vec::new();
    if digit == '1' {
        out.push('\u{0304}');
    } else if digit == '2' {
        out.push('\u{0301}');
    } else if digit == '3' {
        out.push('\u{030c}');
    } else if digit == '4' {
        out.push('\u{0300}');
    }
    assert(out@ =~= tone_mark(digit));
    out
}

fn umlaut_mark_chars(digit: char) -> (r: Vec<char>)
    ensures
        r@ == umlaut_mark(digit),
{
    let mut out: Vec<char> = Vec::new();
    if digit == '1' {
        out.push('ǖ');
    } else if digit == '2' {
        out.push('ǘ');
    } else if digit == '3' {
        out.push('ǚ');
    } else if digit == '4' {
        out.push('ǜ');
    }
    assert(out@ =~= umlaut_mark(digit));
    out
}

/// The position of the vowel that carries the tone of a syllable.
pub fn get_vowel_position(chars: &Vec<char>) -> (r: Option<usize>)
    ensures
        match r {
            Some(p) => tone_position(chars@) == Some(p as int) && p < chars.len(),
            None => tone_position(chars@) is None,
        },
{
    let mut i: usize = 0;
    while i < chars.len()
        invariant
            i <= chars.len(),
            first_vowel_from(chars@, i as int) == first_vowel_from(chars@, 0),
        decreases chars.len() - i,
    {
        let c = chars[i];
        if is_vowel_char(c) {
            if (c == 'i' || c == 'u') && i + 1 < chars.len() && is_vowel_char(chars[i + 1]) {
                return Some(i + 1);
            }
            return Some(i);
        }
        i += 1;
    }
    None
}

fn remove_colons(s: &Vec<char>) -> (r: (Vec<char>, bool))
    ensures
        r.0@ == without_colons(s@),
        r.1 == s@.contains(':'),
{
    let mut out: Vec<char> = Vec::new();
    let mut seen = false;
    let mut i: usize = 0;
    proof {
        lemma_filters_of_empty();
        assert(s@.take(0) =~= Seq::<char>::empty());
    }
    while i < s.len()
        invariant
            i <= s.len(),
            out@ == without_colons(s@.take(i as int)),
            seen == s@.take(i as int).contains(':'),
        decreases s.len() - i,
    {
        let c = s[i];
        proof {
            lemma_without_colons_push(s@.take(i as int), c);
            assert(s@.take(i + 1) =~= s@.take(i as int).push(c));
        }
        if c == ':' {
            seen = true;
        } else {
            out.push(c);
        }
        i += 1;
    }
    assert(s@.take(s.len() as int) =~= s@);
    (out, seen)
}

fn part(v: &Vec<char>, from: usize, to: usize) -> (r: Vec<char>)
    requires
        from <= to <= v.len(),
    ensures
        r@ == v@.subrange(from as int, to as int),
{
    let mut out: Vec<char> = Vec::new();
    let mut i: usize = from;
    while i < to
        invariant
            from <= i <= to,
            to <= v.len(),
            out@ == v@.subrange(from as int, i as int),
        decreases to - i,
    {
        out.push(v[i]);
        i += 1;
        assert(out@ =~= v@.subrange(from as int, i as int));
    }
    out
}

/// Converts one numbered syllable, given as characters, to its tone-mark
/// form.
pub fn mark_syllable(s: &Vec<char>) -> (r: Option<Vec<char>>)
    ensures
        match r {
            Some(t) => marked(s@) == Some(t@),
            None => marked(s@) is None,
        },
{
    let (mut t, umlaut) = remove_colons(s);
    let n = t.len();
    if n == 0 || !is_digit_char(t[n - 1]) {
        return Some(copy_chars(s));
    }
    let digit = t[n - 1];
    let ghost whole = t@;
    t.pop();
    assert(t@ =~= whole.drop_last());
    match get_vowel_position(&t) {
        None => None,
        Some(p) => {
            let toned_u = umlaut_mark_chars(digit);
            let tail = part(&t, p + 1, t.len());
            assert(t@.subrange(p + 1, t.len() as int) =~= t@.skip(p + 1));
            if t[p] == 'u' && umlaut && toned_u.len() > 0 {
                let mut out = part(&t, 0, p);
                assert(t@.subrange(0, p as int) =~= t@.take(p as int));
                append_chars(&mut out, &toned_u);
                append_chars(&mut out, &tail);
                Some(out)
            } else {
                let mut out = part(&t, 0, p + 1);
                assert(t@.subrange(0, p + 1) =~= t@.take(p + 1));
                let mark = tone_mark_chars(digit);
                append_chars(&mut out, &mark);
                append_chars(&mut out, &tail);
                Some(out)
            }
        },
    }
}

/// Converts one decomposed syllable with tone marks, given as characters, to
/// its numbered form.
pub fn number_decomposed(d: &Vec<char>) -> (r: Vec<char>)
    ensures
        r@ == numbered(d@),
{
    let mut out: Vec<char> = Vec::new();
    let mut tone: Option<char> = None;
    let mut i: usize = 0;
    proof {
        lemma_filters_of_empty();
        assert(d@.take(0) =~= Seq::<char>::empty());
    }
    while i < d.len()
        invariant
            i <= d.len(),
            out@ == unmarked(d@.take(i as int)),
            tone == last_tone(d@.take(i as int)),
        decreases d.len() - i,
    {
        let c = d[i];
        proof {
            lemma_unmarked_push(d@.take(i as int), c);
            assert(d@.take(i + 1) =~= d@.take(i as int).push(c));
        }
        match get_char(c) {
            Some(digit) => {
                tone = Some(digit);
            },
            None => {
                out.push(c);
            },
        }
        i += 1;
    }
    assert(d@.take(d.len() as int) =~= d@);
    match tone {
        Some(digit) => {
            out.push(digit);
        },
        None => {},
    }
    out
}

/// A text in which no character is a combining tone mark.
pub open spec fn has_no_tone_mark(s: Seq<char>) -> bool {
    forall|i: int| 0 <= i < s.len() ==> tone_digit(#[trigger] s[i]) is None
}

proof fn lemma_unmarked_same(s: Seq<char>)
    requires
        has_no_tone_mark(s),
    ensures
        unmarked(s) == s,
        last_tone(s) is None,
    decreases s.len(),
{
    if s.len() > 0 {
        let front = s.drop_last();
        assert(tone_digit(s[s.len() - 1]) is None);
        assert forall|i: int| 0 <= i < front.len() implies tone_digit(#[trigger] front[i]) is None by {
            assert(front[i] == s[i]);
        }
        lemma_unmarked_same(front);
        lemma_unmarked_push(front, s.last());
        assert(front.push(s.last()) =~= s);
    } else {
        lemma_filters_of_empty();
        assert(s =~= Seq::<char>::empty());
    }
}

proof fn lemma_without_colons_same(s: Seq<char>)
    requires
        !s.contains(':'),
    ensures
        without_colons(s) == s,
    decreases s.len(),
{
    if s.len() > 0 {
        let front = s.drop_last();
        assert(front.push(s.last()) =~= s);
        lemma_without_colons_push(front, s.last());
        lemma_without_colons_same(front);
    } else {
        lemma_filters_of_empty();
        assert(s =~= Seq::<char>::empty());
    }
}

proof fn lemma_first_vowel(s: Seq<char>, at: int, k: int)
    requires
        0 <= at <= k < s.len(),
        is_vowel(s[k]),
    ensures
        first_vowel_from(s, at) is Some,
        at <= first_vowel_from(s, at)->0 <= k,
        is_vowel(s[first_vowel_from(s, at)->0]),
    decreases k - at,
{
    if !is_vowel(s[at]) {
        lemma_first_vowel(s, at + 1, k);
    }
}

proof fn lemma_mark_then_plain(head: Seq<char>, mark: char, tail: Seq<char>)
    requires
        has_no_tone_mark(head),
        has_no_tone_mark(tail),
        tone_digit(mark) is Some,
    ensures
        unmarked(head.push(mark) + tail) == head + tail,
        last_tone(head.push(mark) + tail) == tone_digit(mark),
    decreases tail.len(),
{
    let whole = head.push(mark) + tail;
    if tail.len() == 0 {
        assert(whole =~= head.push(mark));
        lemma_unmarked_same(head);
        lemma_unmarked_push(head, mark);
        assert(head + tail =~= head);
    } else {
        let front = tail.drop_last();
        assert(tone_digit(tail[tail.len() - 1]) is None);
        assert(whole =~= (head.push(mark) + front).push(tail.last()));
        assert forall|i: int| 0 <= i < front.len() implies tone_digit(#[trigger] front[i]) is None by {
            assert(front[i] == tail[i]);
        }
        lemma_mark_then_plain(head, mark, front);
        lemma_unmarked_push(head.push(mark) + front, tail.last());
        assert((head + front).push(tail.last()) =~= head + tail);
    }
}

/// Writing the tone of a numbered syllable as a mark and reading it back as
/// a digit gives the syllable again. This holds of a syllable that ends in
/// one of the digits `1` to `4`, has a vowel, holds neither a colon nor a
/// combining tone mark, and whose tone-mark form is already in canonical
/// decomposed form.
pub proof fn lemma_number_mark_round_trip(s: Seq<char>)
    requires
        s.len() > 0,
        '1' <= s.last() <= '4',
        exists|i: int| 0 <= i < s.len() && is_vowel(s[i]),
        !s.contains(':'),
        has_no_tone_mark(s),
        nfd_of(marked_or_same(s)) == marked_or_same(s),
    ensures
        marked(s) is Some,
        numbered(nfd_of(marked(s)->0)) == s,
{
    let digit = s.last();
    let base = s.drop_last();
    lemma_without_colons_same(s);
    let k = choose|i: int| 0 <= i < s.len() && is_vowel(s[i]);
    assert(k < base.len());
    assert(base[k] == s[k]);
    lemma_first_vowel(base, 0, k);
    let p = tone_position(base)->0;
    assert(0 <= p < base.len());
    let mark = tone_mark(digit)[0];
    assert(tone_digit(mark) == Some(digit));
    let head = base.take(p + 1);
    let tail = base.skip(p + 1);
    assert(marked(s)->0 =~= head.push(mark) + tail);
    assert forall|i: int| 0 <= i < head.len() implies tone_digit(#[trigger] head[i]) is None by {
        assert(head[i] == s[i]);
    }
    assert forall|i: int| 0 <= i < tail.len() implies tone_digit(#[trigger] tail[i]) is None by {
        assert(tail[i] == s[i + p + 1]);
    }
    lemma_mark_then_plain(head, mark, tail);
    assert(head + tail =~= base);
    assert(base.push(digit) =~= s);
}

/// A syllable with its tone written as a digit.
#[derive(Debug)]
pub struct PinyinAccent(pub String);

impl PinyinAccent {
    /// The syllable with its tone written as a mark, or nothing where the
    /// syllable ends in a digit and has no vowel to carry the mark.
    pub fn replace_tone_numbers_with_tone_marks(&self) -> (r: Option<String>)
        ensures
            match r {
                Some(t) => marked(self.0@) == Some(t@),
                None => marked(self.0@) is None,
            },
    {
        let s = chars_of(self.0.as_str());
        match mark_syllable(&s) {
            Some(t) => Some(string_of(&t)),
            None => None,
        }
    }
}

/// A syllable with its tone written as a mark.
#[derive(Debug)]
pub struct PinyinNumber(pub String);

impl PinyinNumber {
    /// The syllable with its tone written as a digit at the end.
    pub fn into_number(self) -> (r: String)
        ensures
            r@ == numbered(nfd_of(self.0@)),
    {
        let d = decompose(self.0.as_str());
        let out = number_decomposed(&d);
        string_of(&out)
    }
}

/// Writes the tone of a numbered syllable as a mark over its vowel. Fails
/// where the syllable ends in a digit and has no vowel.
pub fn replace_vowel_with_accent(word: &str) -> (r: Result<String, Error>)
    ensures
        match r {
            Ok(t) => marked(word@) == Some(t@),
            Err(e) => marked(word@) is None && e is Parse && e.message()
                == "Unable to find a vowel for the tone"@,
        },
{
    let s = chars_of(word);
    match mark_syllable(&s) {
        Some(t) => Ok(string_of(&t)),
        None => Err(Error::Parse("Unable to find a vowel for the tone".to_string())),
    }
}

/// The short form of a syllable in `ü`: its first letter followed by the
/// toned `ü` of its last character. A word of fewer than two characters has
/// none.
pub open spec fn umlaut_form(word: Seq<char>) -> Option<Seq<char>> {
    if word.len() < 2 {
        None
    } else {
        Some(seq![word[0]] + umlaut_mark(word.last()))
    }
}

/// Writes a syllable such as `nu:3` with the toned `ü`. Fails where the word
/// has fewer than two characters.
pub fn replace_u_tone_with_accent(word: &str) -> (r: Result<String, Error>)
    ensures
        match r {
            Ok(t) => umlaut_form(word@) == Some(t@),
            Err(e) => umlaut_form(word@) is None && e is Parse && e.message()
                == "Unable to get tone for vowel 'u'"@,
        },
{
    let s = chars_of(word);
    if s.len() < 2 {
        return Err(Error::Parse("Unable to get tone for vowel 'u'".to_string()));
    }
    let mut out: Vec<char> = Vec::new();
    out.push(s[0]);
    let tone = umlaut_mark_chars(s[s.len() - 1]);
    append_chars(&mut out, &tone);
    assert(out@ =~= seq![s@[0]] + umlaut_mark(s@.last()));
    Ok(string_of(&out))
}

/// Converts every word of a sentence, given as characters, to its tone-mark
/// form.
pub fn mark_words(text: &Vec<char>) -> (r: Vec<char>)
    ensures
        r@ == marked_sentence(text@),
{
    let tokens = split_words(text);
    let mut parts: Vec<Vec<char>> = Vec::new();
    let mut i: usize = 0;
    while i < tokens.len()
        invariant
            i <= tokens.len(),
            parts.len() == i,
            forall|j: int| 0 <= j < i ==> (#[trigger] parts@[j])@ == marked_or_same(tokens@[j]@),
        decreases tokens.len() - i,
    {
        let one = match mark_syllable(&tokens[i]) {
            Some(t) => t,
            None => copy_chars(&tokens[i]),
        };
        parts.push(one);
        i += 1;
    }
    assert(rows(parts@) =~= words(text@).map_values(|w: Seq<char>| marked_or_same(w)));
    let sep: Vec<char> = vec![' '];
    assert(sep@ =~= seq![' ']);
    join_rows(&parts, &sep)
}

/// Converts every word of a sentence, given as characters, to its numbered
/// form.
pub fn number_words(text: &Vec<char>) -> (r: Vec<char>)
    ensures
        r@ == numbered_sentence(text@),
{
    let tokens = split_words(text);
    let mut parts: Vec<Vec<char>> = Vec::new();
    let mut i: usize = 0;
    while i < tokens.len()
        invariant
            i <= tokens.len(),
            parts.len() == i,
            forall|j: int|
                0 <= j < i ==> (#[trigger] parts@[j])@ == numbered(nfd_of(tokens@[j]@)),
        decreases tokens.len() - i,
    {
        let word = string_of(&tokens[i]);
        let d = decompose(word.as_str());
        let one = number_decomposed(&d);
        parts.push(one);
        i += 1;
    }
    assert(rows(parts@) =~= words(text@).map_values(|w: Seq<char>| numbered(nfd_of(w))));
    let sep: Vec<char> = vec![' '];
    assert(sep@ =~= seq![' ']);
    join_rows(&parts, &sep)
}

} // verus!
