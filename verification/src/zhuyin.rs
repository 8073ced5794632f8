//! Pinyin to Zhuyin (Bopomofo): a left-to-right scan of a decomposed syllable
//! that commits the buffered letters as soon as they name an initial or a
//! final, except where the next letter could still extend them.
use crate::text::{append_chars, chars_of, copy_chars, decompose, is_space, is_space_char, join,
    join_rows, nfd_of, rows, same_chars, split_words, string_of, words};
use vstd::prelude::*;

verus! {

/// One row of a sound table: a romanised sound and the glyphs that render it.
#[derive(Debug)]
pub struct Sound {
    pub sound: Vec<char>,
    pub value: Vec<char>,
}

/// A sound table as plain values: rows of (sound, glyphs).
pub type Table = Seq<(Seq<char>, Seq<char>)>;

/// The rows of a table of `Sound`s.
pub open spec fn table_of(rows: Seq<Sound>) -> Table {
    rows.map_values(|s: Sound| (s.sound@, s.value@))
}

/// The rows of a table given as pairs of strings.
pub open spec fn table_of_pairs(rows: Seq<(String, String)>) -> Table {
    rows.map_values(|p: (String, String)| (p.0@, p.1@))
}

/// The glyphs of `key` in a table. Where a sound is listed more than once the
/// last row counts.
pub open spec fn lookup(table: Table, key: Seq<char>) -> Option<Seq<char>>
    decreases table.len(),
{
    if table.len() == 0 {
        None
    } else if table.last().0 == key {
        Some(table.last().1)
    } else {
        lookup(table.drop_last(), key)
    }
}

/// The three combining tone marks that Zhuyin writes: acute, caron and grave.
/// The first tone has no mark in Zhuyin, so the macron is not among them.
pub open spec fn is_accent(c: char) -> bool {
    c == '\u{0301}' || c == '\u{030c}' || c == '\u{0300}'
}

/// The text with its first tone mark moved behind the last character.
pub open spec fn accent_last(text: Seq<char>) -> Seq<char>
    decreases text.len(),
{
    if text.len() == 0 {
        text
    } else if is_accent(text[0]) {
        text.drop_first().push(text[0])
    } else {
        seq![text[0]] + accent_last(text.drop_first())
    }
}

/// Whether a buffer must wait for the next letter before it is read as an
/// initial: `z`, `c`, `s` before `h`, and `zh`, `ch`, `sh` before `i`.
pub open spec fn initial_waits(buf: Seq<char>, next: Option<char>) -> bool {
    ||| (buf == seq!['z'] || buf == seq!['c'] || buf == seq!['s']) && next == Some('h')
    ||| (buf == seq!['z', 'h'] || buf == seq!['c', 'h'] || buf == seq!['s', 'h']) && next == Some(
        'i',
    )
}

/// Whether a buffer must wait for the next letter before it is read as a
/// final, because that letter would extend it into a longer final.
pub open spec fn final_waits(buf: Seq<char>, next: Option<char>) -> bool {
    ||| (buf == seq!['a'] || buf == seq!['y', 'a']) && (next == Some('i') || next == Some('o')
        || next == Some('n'))
    ||| buf == seq!['e'] && (next == Some('i') || next == Some('n') || next == Some('r'))
    ||| buf == seq!['o'] && (next == Some('u') || next == Some('n'))
    ||| (buf == seq!['a', 'n'] || buf == seq!['e', 'n'] || buf == seq!['o', 'n'] || buf
        == seq!['y', 'a', 'n'] || buf == seq!['i', 'a', 'n'] || buf == seq!['y', 'i', 'n'] || buf
        == seq!['i', 'n'] || buf == seq!['w', 'a', 'n'] || buf == seq!['w', 'e', 'n'] || buf
        == seq!['u', 'a', 'n']) && next == Some('g')
    ||| buf == seq!['u'] && (next == Some('a') || next == Some('o') || next == Some('i') || next
        == Some('n'))
    ||| buf == seq!['w'] && (next == Some('u') || next == Some('a') || next == Some('o') || next
        == Some('e'))
}

/// What a buffer renders as when it is read as a final: its row in the table
/// of finals, or the buffer itself where it is a single tone mark.
pub open spec fn final_glyphs(finals: Table, buf: Seq<char>) -> Option<Seq<char>> {
    match lookup(finals, buf) {
        Some(g) => Some(g),
        None => if buf.len() == 1 && is_accent(buf[0]) {
            Some(buf)
        } else {
            None
        },
    }
}

/// The character that follows position `at`, if there is one.
pub open spec fn next_char(text: Seq<char>, at: int) -> Option<char> {
    if 0 <= at + 1 < text.len() {
        Some(text[at + 1])
    } else {
        None
    }
}

/// The scan from position `at` on, with `buf` the letters not yet committed
/// and `out` the glyphs written so far. Whitespace is passed over. Letters
/// still in the buffer at the end are dropped.
pub open spec fn scan(
    initials: Table,
    finals: Table,
    text: Seq<char>,
    at: int,
    buf: Seq<char>,
    out: Seq<char>,
) -> Seq<char>
    decreases text.len() - at,
{
    if at < 0 || at >= text.len() {
        out
    } else if is_space(text[at]) {
        scan(initials, finals, text, at + 1, buf, out)
    } else {
        let b = buf.push(text[at]);
        let next = next_char(text, at);
        if initial_waits(b, next) {
            scan(initials, finals, text, at + 1, b, out)
        } else if lookup(initials, b) is Some {
            scan(initials, finals, text, at + 1, Seq::empty(), out + lookup(initials, b)->0)
        } else if final_waits(b, next) {
            scan(initials, finals, text, at + 1, b, out)
        } else if final_glyphs(finals, b) is Some {
            scan(initials, finals, text, at + 1, Seq::empty(), out + final_glyphs(finals, b)->0)
        } else {
            scan(initials, finals, text, at + 1, b, out)
        }
    }
}

/// The Zhuyin rendering of a decomposed syllable under the two tables.
pub open spec fn zhuyin_of(initials: Table, finals: Table, decomposed: Seq<char>) -> Seq<char> {
    scan(initials, finals, accent_last(decomposed), 0, Seq::empty(), Seq::empty())
}

/// Tells whether a character is a tone mark that Zhuyin writes.
pub fn is_accent_char(c: char) -> (b: bool)
    ensures
        b == is_accent(c),
{
    c == '\u{0301}' || c == '\u{030c}' || c == '\u{0300}'
}

/// Moves the first tone mark of the text behind its last character.
pub fn swap_tones_to_end(text: &Vec<char>) -> (r: Vec<char>)
    ensures
        r@ == accent_last(text@),
{
    let mut out: Vec<char> = Vec::new();
    let mut i: usize = 0;
    assert(text@.skip(0) =~= text@);
    while i < text.len()
        invariant
            i <= text.len(),
            out@ + accent_last(text@.skip(i as int)) == accent_last(text@),
        decreases text.len() - i,
    {
        let ghost rest = text@.skip(i as int);
        let ghost before = out@;
        let c = text[i];
        assert(rest.drop_first() =~= text@.skip(i + 1));
        if is_accent_char(c) {
            let mut j: usize = i + 1;
            while j < text.len()
                invariant
                    i < j <= text.len(),
                    out@ == before + text@.subrange(i + 1, j as int),
                decreases text.len() - j,
            {
                out.push(text[j]);
                j += 1;
                assert(out@ =~= before + text@.subrange(i + 1, j as int));
            }
            out.push(c);
            assert(text@.subrange(i + 1, text.len() as int) =~= rest.drop_first());
            assert(out@ =~= before + rest.drop_first().push(c));
            return out;
        }
        out.push(c);
        assert(out@ + accent_last(text@.skip(i + 1)) =~= before + accent_last(rest));
        i += 1;
    }
    assert(out@ + Seq::<char>::empty() =~= out@);
    out
}

/// The row of `key` in a table: the last one that lists it.
pub fn find(table: &Vec<Sound>, key: &Vec<char>) -> (r: Option<usize>)
    ensures
        match r {
            Some(i) => i < table.len() && lookup(table_of(table@), key@) == Some(table@[i as int].value@),
            None => lookup(table_of(table@), key@) is None,
        },
{
    let mut i: usize = table.len();
    assert(table_of(table@).take(i as int) =~= table_of(table@));
    while i > 0
        invariant
            i <= table.len(),
            lookup(table_of(table@).take(i as int), key@) == lookup(table_of(table@), key@),
        decreases i,
    {
        let ghost part = table_of(table@).take(i as int);
        assert(part.last() == (table@[i - 1].sound@, table@[i - 1].value@));
        assert(part.drop_last() =~= table_of(table@).take(i - 1));
        i -= 1;
        if same_chars(&table[i].sound, key) {
            return Some(i);
        }
    }
    None
}

fn is_one(buf: &Vec<char>, a: char) -> (r: bool)
    ensures
        r == (buf@ == seq![a]),
{
    let r = buf.len() == 1 && buf[0] == a;
    assert(r ==> buf@ =~= seq![a]);
    r
}

fn is_two(buf: &Vec<char>, a: char, b: char) -> (r: bool)
    ensures
        r == (buf@ == seq![a, b]),
{
    let r = buf.len() == 2 && buf[0] == a && buf[1] == b;
    assert(r ==> buf@ =~= seq![a, b]);
    r
}

fn is_three(buf: &Vec<char>, a: char, b: char, c: char) -> (r: bool)
    ensures
        r == (buf@ == seq![a, b, c]),
{
    let r = buf.len() == 3 && buf[0] == a && buf[1] == b && buf[2] == c;
    assert(r ==> buf@ =~= seq![a, b, c]);
    r
}

fn next_is(next: Option<char>, c: char) -> (r: bool)
    ensures
        r == (next == Some(c)),
{
    match next {
        Some(n) => n == c,
        None => false,
    }
}

fn check_initial_waits(buf: &Vec<char>, next: Option<char>) -> (r: bool)
    ensures
        r == initial_waits(buf@, next),
{
    ((is_one(buf, 'z') || is_one(buf, 'c') || is_one(buf, 's')) && next_is(next, 'h')) || ((is_two(
        buf,
        'z',
        'h',
    ) || is_two(buf, 'c', 'h') || is_two(buf, 's', 'h')) && next_is(next, 'i'))
}

fn check_final_waits(buf: &Vec<char>, next: Option<char>) -> (r: bool)
    ensures
        r == final_waits(buf@, next),
{
    let open_a = (is_one(buf, 'a') || is_two(buf, 'y', 'a')) && (next_is(next, 'i') || next_is(
        next,
        'o',
    ) || next_is(next, 'n'));
    let open_e = is_one(buf, 'e') && (next_is(next, 'i') || next_is(next, 'n') || next_is(
        next,
        'r',
    ));
    let open_o = is_one(buf, 'o') && (next_is(next, 'u') || next_is(next, 'n'));
    let nasal = is_two(buf, 'a', 'n') || is_two(buf, 'e', 'n') || is_two(buf, 'o', 'n')
        || is_three(buf, 'y', 'a', 'n') || is_three(buf, 'i', 'a', 'n') || is_three(
        buf,
        'y',
        'i',
        'n',
    ) || is_two(buf, 'i', 'n') || is_three(buf, 'w', 'a', 'n') || is_three(buf, 'w', 'e', 'n')
        || is_three(buf, 'u', 'a', 'n');
    let open_n = nasal && next_is(next, 'g');
    let open_u = is_one(buf, 'u') && (next_is(next, 'a') || next_is(next, 'o') || next_is(
        next,
        'i',
    ) || next_is(next, 'n'));
    let open_w = is_one(buf, 'w') && (next_is(next, 'u') || next_is(next, 'a') || next_is(
        next,
        'o',
    ) || next_is(next, 'e'));
    open_a || open_e || open_o || open_n || open_u || open_w
}

/// The tables that drive the transcription: initials and finals, each from a
/// romanised sound to its glyphs.
#[derive(Debug)]
pub struct Zhuyin {
    initials: Vec<Sound>,
    finals: Vec<Sound>,
}

fn sounds_of(rows: &Vec<(String, String)>) -> (r: Vec<Sound>)
    ensures
        table_of(r@) == table_of_pairs(rows@),
{
    let mut out: Vec<Sound> = Vec::new();
    let mut i: usize = 0;
    while i < rows.len()
        invariant
            i <= rows.len(),
            table_of(out@) == table_of_pairs(rows@.take(i as int)),
        decreases rows.len() - i,
    {
        let ghost before = table_of(out@);
        let sound = chars_of(rows[i].0.as_str());
        let value = chars_of(rows[i].1.as_str());
        out.push(Sound { sound, value });
        i += 1;
        assert(table_of(out@) =~= before.push((rows@[i - 1].0@, rows@[i - 1].1@)));
        assert(table_of_pairs(rows@.take(i as int)) =~= table_of_pairs(rows@.take(i - 1)).push(
            (rows@[i - 1].0@, rows@[i - 1].1@),
        ));
    }
    assert(rows@.take(rows.len() as int) =~= rows@);
    out
}

impl Zhuyin {
    /// The table of initials, as plain values.
    pub closed spec fn initials(&self) -> Table {
        table_of(self.initials@)
    }

    /// The table of finals, as plain values.
    pub closed spec fn finals(&self) -> Table {
        table_of(self.finals@)
    }

    /// The Zhuyin rendering of a decomposed syllable under these tables.
    pub open spec fn transcribe(&self, decomposed: Seq<char>) -> Seq<char> {
        zhuyin_of(self.initials(), self.finals(), decomposed)
    }

    /// Builds the tables from rows of (sound, glyphs).
    pub fn new(initials: Vec<(String, String)>, finals: Vec<(String, String)>) -> (r: Zhuyin)
        ensures
            r.initials() == table_of_pairs(initials@),
            r.finals() == table_of_pairs(finals@),
    {
        Zhuyin { initials: sounds_of(&initials), finals: sounds_of(&finals) }
    }

    /// Transcribes a syllable that is already canonically decomposed.
    pub fn transcribe_decomposed(&self, decomposed: &Vec<char>) -> (r: Vec<char>)
        ensures
            r@ == self.transcribe(decomposed@),
    {
        let text = swap_tones_to_end(decomposed);
        let mut out: Vec<char> = Vec::new();
        let mut buf: Vec<char> = Vec::new();
        let mut i: usize = 0;
        while i < text.len()
            invariant
                i <= text.len(),
                scan(self.initials(), self.finals(), text@, i as int, buf@, out@) == scan(
                    self.initials(),
                    self.finals(),
                    text@,
                    0,
                    Seq::empty(),
                    Seq::empty(),
                ),
            decreases text.len() - i,
        {
            let c = text[i];
            if !is_space_char(c) {
                buf.push(c);
                let next: Option<char> = if i + 1 < text.len() {
                    Some(text[i + 1])
                } else {
                    None
                };
                assert(next == next_char(text@, i as int));
                if !check_initial_waits(&buf, next) {
                    match find(&self.initials, &buf) {
                        Some(row) => {
                            append_chars(&mut out, &self.initials[row].value);
                            buf = Vec::new();
                        },
                        None => {
                            if !check_final_waits(&buf, next) {
                                match find(&self.finals, &buf) {
                                    Some(row) => {
                                        append_chars(&mut out, &self.finals[row].value);
                                        buf = Vec::new();
                                    },
                                    None => {
                                        if buf.len() == 1 && is_accent_char(buf[0]) {
                                            let mark = copy_chars(&buf);
                                            append_chars(&mut out, &mark);
                                            buf = Vec::new();
                                        }
                                    },
                                }
                            }
                        },
                    }
                }
            }
            i += 1;
        }
        out
    }

    /// Transcribes one pinyin syllable with tone marks into Zhuyin.
    pub fn get_zhuyin_from_pinyin(&self, pinyin: &str) -> (r: String)
        ensures
            r@ == self.transcribe(nfd_of(pinyin@)),
    {
        let decomposed = decompose(pinyin);
        let glyphs = self.transcribe_decomposed(&decomposed);
        string_of(&glyphs)
    }
}

/// The Zhuyin rendering of a sentence: each word decomposed and transcribed,
/// with one space between them.
pub open spec fn zhuyin_sentence(zh: Zhuyin, text: Seq<char>) -> Seq<char> {
    join(words(text).map_values(|w: Seq<char>| zh.transcribe(nfd_of(w))), seq![' '])
}

/// Transcribes every word of a sentence, given as characters, into Zhuyin.
pub fn zhuyin_words(zh: &Zhuyin, text: &Vec<char>) -> (r: Vec<char>)
    ensures
        r@ == zhuyin_sentence(*zh, text@),
{
    let tokens = split_words(text);
    let mut parts: Vec<Vec<char>> = Vec::new();
    let mut i: usize = 0;
    while i < tokens.len()
        invariant
            i <= tokens.len(),
            parts.len() == i,
            forall|j: int|
                0 <= j < i ==> (#[trigger] parts@[j])@ == zh.transcribe(nfd_of(tokens@[j]@)),
        decreases tokens.len() - i,
    {
        let word = string_of(&tokens[i]);
        let decomposed = decompose(word.as_str());
        let one = zh.transcribe_decomposed(&decomposed);
        parts.push(one);
        i += 1;
    }
    assert(rows(parts@) =~= words(text@).map_values(|w: Seq<char>| zh.transcribe(nfd_of(w))));
    let sep: Vec<char> = vec![' '];
    assert(sep@ =~= seq![' ']);
    join_rows(&parts, &sep)
}

/// Transcribes one pinyin syllable with tone marks into Zhuyin under the
/// given tables.
pub fn get_zhuyin_from_pinyin(pinyin: &str, zh: &Zhuyin) -> (r: Result<String, crate::error::Error>)
    ensures
        r is Ok,
        r->Ok_0@ == zh.transcribe(nfd_of(pinyin@)),
{
    Ok(zh.get_zhuyin_from_pinyin(pinyin))
}

} // verus!
