//! Dictionary entries enriched with the other notations of their
//! pronunciation and with their HSK level, ready to be written out.
use crate::cedict::{is_comment, pieces, split_on, texts, Item};
use crate::error::Error;
use crate::hsk::{find_level, level_in, HSKLevel, HskData};
use crate::pinyin::{mark_words, marked_sentence};
use crate::text::{chars_of, copy_chars, join, join_rows, rows, split_words, string_of, trim, trimmed, words};
use crate::wade_giles::{wade_giles_sentence, wade_giles_words};
use crate::zhuyin::{zhuyin_sentence, zhuyin_words, Zhuyin};
use vstd::prelude::*;

verus! {

/// What can be written as one row of a table of text.
pub trait AsRecord {
    /// The fields of the row, in the order of the columns.
    fn as_record(&self) -> Vec<String>;
}

/// The strings joined with one comma between every two neighbours.
pub fn join_strings(parts: &Vec<String>) -> (r: String)
    ensures
        r@ == join(texts(parts@), seq![',']),
{
    let mut all: Vec<Vec<char>> = Vec::new();
    let mut i: usize = 0;
    while i < parts.len()
        invariant
            i <= parts.len(),
            all.len() == i,
            forall|j: int| 0 <= j < i ==> (#[trigger] all@[j])@ == parts@[j]@,
        decreases parts.len() - i,
    {
        all.push(chars_of(parts[i].as_str()));
        i += 1;
    }
    assert(rows(all@) =~= texts(parts@));
    let sep: Vec<char> = vec![','];
    assert(sep@ =~= seq![',']);
    let out = join_rows(&all, &sep);
    string_of(&out)
}

/// An entry of the dictionary with, for each of its syllables, the pinyin
/// with tone marks, the Zhuyin and the Wade-Giles form, and with the HSK
/// level of the word.
#[derive(Debug, Default, Clone)]
pub struct CedictItem {
    pub cedict_item: Item,
    pub pinyin_tone_marker: Vec<String>,
    pub zhuyins: Vec<String>,
    pub wades: Vec<String>,
    pub hsk_level: Option<HSKLevel>,
}

/// The name of a level, or the empty text where there is none.
pub open spec fn level_text(level: Option<HSKLevel>) -> Seq<char> {
    match level {
        Some(l) => l.name(),
        None => Seq::empty(),
    }
}

impl CedictItem {
    /// An entry that is not enriched yet.
    pub fn new(cedict_item: Item) -> (r: CedictItem)
        ensures
            r.cedict_item == cedict_item,
            r.pinyin_tone_marker@.len() == 0,
            r.zhuyins@.len() == 0,
            r.wades@.len() == 0,
            r.hsk_level is None,
    {
        CedictItem {
            cedict_item,
            pinyin_tone_marker: Vec::new(),
            zhuyins: Vec::new(),
            wades: Vec::new(),
            hsk_level: None,
        }
    }

    /// The fields of the row that this entry makes.
    pub open spec fn record(&self) -> Seq<Seq<char>> {
        seq![
            self.cedict_item@.traditional,
            self.cedict_item@.simplified,
            join(self.cedict_item@.pinyin, seq![',']),
            join(self.cedict_item@.translations, seq![',']),
            join(texts(self.pinyin_tone_marker@), seq![',']),
            join(texts(self.zhuyins@), seq![',']),
            join(texts(self.wades@), seq![',']),
            level_text(self.hsk_level),
        ]
    }

    /// Fills in the pinyin with tone marks of each syllable.
    pub fn generate_pinyin_tone_marker(&mut self)
        ensures
            texts(final(self).pinyin_tone_marker@) == old(self).cedict_item@.pinyin.map_values(
                |p: Seq<char>| marked_sentence(p),
            ),
            final(self).cedict_item == old(self).cedict_item,
            final(self).zhuyins == old(self).zhuyins,
            final(self).wades == old(self).wades,
            final(self).hsk_level == old(self).hsk_level,
    {
        let mut out: Vec<String> = Vec::new();
        let mut i: usize = 0;
        while i < self.cedict_item.pinyin_tone_number.len()
            invariant
                i <= self.cedict_item.pinyin_tone_number.len(),
                *self == *old(self),
                out.len() == i,
                forall|j: int|
                    0 <= j < i ==> (#[trigger] out@[j])@ == marked_sentence(
                        self.cedict_item.pinyin_tone_number@[j]@,
                    ),
            decreases self.cedict_item.pinyin_tone_number.len() - i,
        {
            let syllable = chars_of(self.cedict_item.pinyin_tone_number[i].as_str());
            let marked = mark_words(&syllable);
            out.push(string_of(&marked));
            i += 1;
        }
        assert(texts(out@) =~= self.cedict_item@.pinyin.map_values(
            |p: Seq<char>| marked_sentence(p),
        ));
        self.pinyin_tone_marker = out;
    }

    /// Fills in the Zhuyin of each syllable, under the given tables.
    pub fn generate_zhuyin_from_pinyin(&mut self, zh: &Zhuyin)
        ensures
            texts(final(self).zhuyins@) == old(self).cedict_item@.pinyin.map_values(
                |p: Seq<char>| zhuyin_sentence(*zh, p),
            ),
            final(self).cedict_item == old(self).cedict_item,
            final(self).pinyin_tone_marker == old(self).pinyin_tone_marker,
            final(self).wades == old(self).wades,
            final(self).hsk_level == old(self).hsk_level,
    {
        let mut out: Vec<String> = Vec::new();
        let mut i: usize = 0;
        while i < self.cedict_item.pinyin_tone_number.len()
            invariant
                i <= self.cedict_item.pinyin_tone_number.len(),
                *self == *old(self),
                out.len() == i,
                forall|j: int|
                    0 <= j < i ==> (#[trigger] out@[j])@ == zhuyin_sentence(
                        *zh,
                        self.cedict_item.pinyin_tone_number@[j]@,
                    ),
            decreases self.cedict_item.pinyin_tone_number.len() - i,
        {
            let syllable = chars_of(self.cedict_item.pinyin_tone_number[i].as_str());
            let glyphs = zhuyin_words(zh, &syllable);
            out.push(string_of(&glyphs));
            i += 1;
        }
        assert(texts(out@) =~= self.cedict_item@.pinyin.map_values(
            |p: Seq<char>| zhuyin_sentence(*zh, p),
        ));
        self.zhuyins = out;
    }

    /// Fills in the Wade-Giles form of each syllable.
    pub fn generate_wade_giles_from_pinyin(&mut self)
        ensures
            texts(final(self).wades@) == old(self).cedict_item@.pinyin.map_values(
                |p: Seq<char>| wade_giles_sentence(p),
            ),
            final(self).cedict_item == old(self).cedict_item,
            final(self).pinyin_tone_marker == old(self).pinyin_tone_marker,
            final(self).zhuyins == old(self).zhuyins,
            final(self).hsk_level == old(self).hsk_level,
    {
        let mut out: Vec<String> = Vec::new();
        let mut i: usize = 0;
        while i < self.cedict_item.pinyin_tone_number.len()
            invariant
                i <= self.cedict_item.pinyin_tone_number.len(),
                *self == *old(self),
                out.len() == i,
                forall|j: int|
                    0 <= j < i ==> (#[trigger] out@[j])@ == wade_giles_sentence(
                        self.cedict_item.pinyin_tone_number@[j]@,
                    ),
            decreases self.cedict_item.pinyin_tone_number.len() - i,
        {
            let syllable = chars_of(self.cedict_item.pinyin_tone_number[i].as_str());
            let wade = wade_giles_words(&syllable);
            out.push(string_of(&wade));
            i += 1;
        }
        assert(texts(out@) =~= self.cedict_item@.pinyin.map_values(
            |p: Seq<char>| wade_giles_sentence(p),
        ));
        self.wades = out;
    }

    /// Fills in the HSK level where the list of levels has the simplified
    /// form of the entry.
    pub fn fill_hsk_field(&mut self, hsks: &Vec<HskData>)
        ensures
            final(self).hsk_level == match level_in(hsks@, old(self).cedict_item@.simplified) {
                Some(level) => Some(level),
                None => old(self).hsk_level,
            },
            final(self).cedict_item == old(self).cedict_item,
            final(self).pinyin_tone_marker == old(self).pinyin_tone_marker,
            final(self).zhuyins == old(self).zhuyins,
            final(self).wades == old(self).wades,
    {
        match find_level(hsks, self.cedict_item.simplified_character.as_str()) {
            Some(level) => {
                self.hsk_level = Some(level);
            },
            None => {},
        }
    }

    /// The row that this entry makes: its two forms, then its syllables, its
    /// translations, its pinyin with tone marks, its Zhuyin and its
    /// Wade-Giles forms, each list joined with commas, then the name of its
    /// level.
    pub fn to_record(&self) -> (r: Vec<String>)
        ensures
            texts(r@) == self.record(),
    {
        let level = match self.hsk_level {
            Some(l) => l.to_string(),
            None => String::new(),
        };
        let mut out: Vec<String> = Vec::new();
        out.push(self.cedict_item.traditional_character.clone());
        out.push(self.cedict_item.simplified_character.clone());
        out.push(join_strings(&self.cedict_item.pinyin_tone_number));
        out.push(join_strings(&self.cedict_item.translations));
        out.push(join_strings(&self.pinyin_tone_marker));
        out.push(join_strings(&self.zhuyins));
        out.push(join_strings(&self.wades));
        out.push(level);
        assert(texts(out@) =~= self.record());
        out
    }
}

impl AsRecord for CedictItem {
    fn as_record(&self) -> (r: Vec<String>)
        ensures
            texts(r@) == self.record(),
    {
        self.to_record()
    }
}

/// A line of the dictionary with all the notations of its pronunciation as
/// running text.
#[derive(Debug, Default)]
pub struct Cedict {
    pub traditional_chinese: String,
    pub simplified_chinese: String,
    pub pinyin: String,
    pub pinyin_accent: String,
    pub translations: String,
    pub zhuyin: String,
    pub wade: String,
    pub level: Option<HSKLevel>,
}

/// A `Cedict` as plain values.
pub struct CedictView {
    pub traditional: Seq<char>,
    pub simplified: Seq<char>,
    pub pinyin: Seq<char>,
    pub pinyin_accent: Seq<char>,
    pub translations: Seq<char>,
    pub zhuyin: Seq<char>,
    pub wade: Seq<char>,
    pub level: Option<HSKLevel>,
}

impl View for Cedict {
    type V = CedictView;

    open spec fn view(&self) -> CedictView {
        CedictView {
            traditional: self.traditional_chinese@,
            simplified: self.simplified_chinese@,
            pinyin: self.pinyin@,
            pinyin_accent: self.pinyin_accent@,
            translations: self.translations@,
            zhuyin: self.zhuyin@,
            wade: self.wade@,
            level: self.level,
        }
    }
}

/// The part of a line that a reading found missing.
pub enum Lacking {
    /// The line holds no word.
    Traditional,
    /// The line holds one word only.
    Simplified,
    /// No bracket follows the first two words.
    Pinyin,
}

/// The message of the error that reports a missing part.
pub open spec fn lacking_message(l: Lacking) -> Seq<char> {
    match l {
        Lacking::Traditional => "Unable to get the traditional chinese character"@,
        Lacking::Simplified => "Unable to get the simplified chinese character"@,
        Lacking::Pinyin => "Unable to found the pinyin"@,
    }
}

/// What stands behind the first two words of a line, its words joined with
/// one space, cut into pieces at the brackets.
pub open spec fn behind_the_forms(content: Seq<char>) -> Seq<Seq<char>> {
    pieces(join(words(content).skip(2), seq![' ']), '[', ']')
}

/// What a line says. The first two words are the traditional and the
/// simplified form. The pinyin is what stands between the first two
/// brackets behind them, and the translations are what follows, trimmed.
/// The other notations are derived from the pinyin, and the level is looked
/// up under the simplified form.
pub open spec fn read_line(content: Seq<char>, hsk: Seq<HskData>, zh: Zhuyin) -> Result<
    CedictView,
    Lacking,
> {
    let tokens = words(content);
    let remainder = behind_the_forms(content);
    if tokens.len() == 0 {
        Err(Lacking::Traditional)
    } else if tokens.len() == 1 {
        Err(Lacking::Simplified)
    } else if remainder.len() < 2 {
        Err(Lacking::Pinyin)
    } else {
        Ok(
            CedictView {
                traditional: tokens[0],
                simplified: tokens[1],
                pinyin: remainder[1],
                pinyin_accent: marked_sentence(remainder[1]),
                translations: trimmed(join(remainder.skip(2), seq![' '])),
                zhuyin: trimmed(zhuyin_sentence(zh, marked_sentence(remainder[1]))),
                wade: wade_giles_sentence(remainder[1]),
                level: level_in(hsk, tokens[1]),
            },
        )
    }
}

fn rows_from(v: &Vec<Vec<char>>, from: usize) -> (r: Vec<Vec<char>>)
    requires
        from <= v.len(),
    ensures
        rows(r@) == rows(v@).skip(from as int),
{
    let mut out: Vec<Vec<char>> = Vec::new();
    let mut i: usize = from;
    while i < v.len()
        invariant
            from <= i <= v.len(),
            out.len() == i - from,
            forall|j: int| 0 <= j < out.len() ==> (#[trigger] out@[j])@ == v@[from + j]@,
        decreases v.len() - i,
    {
        out.push(copy_chars(&v[i]));
        i += 1;
    }
    assert(rows(out@) =~= rows(v@).skip(from as int));
    out
}

impl Cedict {
    /// Reads a line of the dictionary and derives the other notations. The
    /// error says which part of the line is missing.
    pub fn parse(content: &str, hsk: &Vec<HskData>, zh: &Zhuyin) -> (r: Result<Cedict, Error>)
        ensures
            match r {
                Ok(c) => read_line(content@, hsk@, *zh) == Ok::<CedictView, Lacking>(c@),
                Err(e) => read_line(content@, hsk@, *zh) is Err && e is Parse && e.message()
                    == lacking_message(read_line(content@, hsk@, *zh)->Err_0),
            },
    {
        let text = chars_of(content);
        let tokens = split_words(&text);
        if tokens.len() == 0 {
            return Err(
                Error::Parse("Unable to get the traditional chinese character".to_string()),
            );
        }
        if tokens.len() == 1 {
            return Err(Error::Parse("Unable to get the simplified chinese character".to_string()));
        }
        assert(rows(tokens@)[0] == tokens@[0]@);
        assert(rows(tokens@)[1] == tokens@[1]@);
        let space: Vec<char> = vec![' '];
        assert(space@ =~= seq![' ']);
        let behind = rows_from(&tokens, 2);
        let rest = join_rows(&behind, &space);
        let remainder = split_on(&rest, '[', ']');
        if remainder.len() < 2 {
            return Err(Error::Parse("Unable to found the pinyin".to_string()));
        }
        assert(rows(remainder@)[1] == remainder@[1]@);
        let simplified = string_of(&tokens[1]);
        let level = find_level(hsk, simplified.as_str());
        let after = rows_from(&remainder, 2);
        let translations = trim(&join_rows(&after, &space));
        let accent = mark_words(&remainder[1]);
        let zhuyin = trim(&zhuyin_words(zh, &accent));
        let wade = wade_giles_words(&remainder[1]);
        Ok(
            Cedict {
                traditional_chinese: string_of(&tokens[0]),
                simplified_chinese: simplified,
                pinyin: string_of(&remainder[1]),
                pinyin_accent: string_of(&accent),
                translations: string_of(&translations),
                zhuyin: string_of(&zhuyin),
                wade: string_of(&wade),
                level,
            },
        )
    }
}

/// The views of a vector of lines that were read.
pub open spec fn views(v: Seq<Cedict>) -> Seq<CedictView> {
    v.map_values(|c: Cedict| c@)
}

/// What a list of lines says, line by line. Comment lines are passed over;
/// the first line that lacks a part makes the whole list fail.
pub open spec fn read_lines(lines: Seq<Seq<char>>, hsk: Seq<HskData>, zh: Zhuyin) -> Result<
    Seq<CedictView>,
    Lacking,
>
    decreases lines.len(),
{
    if lines.len() == 0 {
        Ok(Seq::empty())
    } else {
        match read_lines(lines.drop_last(), hsk, zh) {
            Err(l) => Err(l),
            Ok(read) => if is_comment(lines.last()) {
                Ok(read)
            } else {
                match read_line(lines.last(), hsk, zh) {
                    Err(l) => Err(l),
                    Ok(c) => Ok(read.push(c)),
                }
            },
        }
    }
}

/// A failure on the first lines of a list is the failure of the whole list.
pub proof fn lemma_read_fails_for_good(
    lines: Seq<Seq<char>>,
    hsk: Seq<HskData>,
    zh: Zhuyin,
    n: int,
)
    requires
        0 <= n <= lines.len(),
        read_lines(lines.take(n), hsk, zh) is Err,
    ensures
        read_lines(lines, hsk, zh) == read_lines(lines.take(n), hsk, zh),
    decreases lines.len() - n,
{
    if n == lines.len() {
        assert(lines.take(n) =~= lines);
    } else {
        assert(lines.take(n + 1).drop_last() =~= lines.take(n));
        lemma_read_fails_for_good(lines, hsk, zh, n + 1);
    }
}

/// Reads the lines of a dictionary and derives the other notations of each.
/// Lines that start with `#` or `%` are passed over. The first line that
/// lacks a part makes the reading fail with the error of that line.
pub fn parse_cedict_file(lines: &Vec<String>, hsk: &Vec<HskData>, zh: &Zhuyin) -> (r: Result<
    Vec<Cedict>,
    Error,
>)
    ensures
        match r {
            Ok(items) => read_lines(texts(lines@), hsk@, *zh) == Ok::<Seq<CedictView>, Lacking>(
                views(items@),
            ),
            Err(e) => read_lines(texts(lines@), hsk@, *zh) is Err && e is Parse && e.message()
                == lacking_message(read_lines(texts(lines@), hsk@, *zh)->Err_0),
        },
{
    let mut items: Vec<Cedict> = Vec::new();
    let mut i: usize = 0;
    let ghost all = texts(lines@);
    assert(all.take(0) =~= Seq::<Seq<char>>::empty());
    assert(views(items@) =~= Seq::<CedictView>::empty());
    while i < lines.len()
        invariant
            i <= lines.len(),
            all == texts(lines@),
            read_lines(all.take(i as int), hsk@, *zh) == Ok::<Seq<CedictView>, Lacking>(
                views(items@),
            ),
        decreases lines.len() - i,
    {
        let line = lines[i].as_str();
        let text = chars_of(line);
        proof {
            assert(all.take(i + 1).drop_last() =~= all.take(i as int));
            assert(all.take(i + 1).last() == text@);
        }
        let comment = text.len() > 0 && (text[0] == '#' || text[0] == '%');
        if !comment {
            match Cedict::parse(line, hsk, zh) {
                Err(e) => {
                    proof {
                        lemma_read_fails_for_good(all, hsk@, *zh, i + 1);
                    }
                    return Err(e);
                },
                Ok(item) => {
                    let ghost before = views(items@);
                    let ghost view = item@;
                    items.push(item);
                    assert(views(items@) =~= before.push(view));
                },
            }
        }
        i += 1;
    }
    assert(all.take(lines.len() as int) =~= all);
    Ok(items)
}

} // verus!
