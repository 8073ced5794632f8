//! The CC-CEDICT dictionary: one entry per line, written as
//! `traditional simplified [pin1 yin1] /translation/translation/`.
use crate::error::Error;
use crate::text::{chars_of, join, rows, same_chars, split_words, string_of, words};
use crate::variant::KeyVariant;
use vstd::prelude::*;

verus! {

/// One entry of the dictionary.
#[derive(Debug, Default, Clone)]
pub struct Item {
    pub traditional_character: String,
    pub simplified_character: String,
    pub pinyin_tone_number: Vec<String>,
    pub translations: Vec<String>,
}

/// An entry as plain values.
pub struct ItemView {
    pub traditional: Seq<char>,
    pub simplified: Seq<char>,
    pub pinyin: Seq<Seq<char>>,
    pub translations: Seq<Seq<char>>,
}

/// The texts held by a vector of strings.
pub open spec fn texts(v: Seq<String>) -> Seq<Seq<char>> {
    v.map_values(|s: String| s@)
}

impl View for Item {
    type V = ItemView;

    open spec fn view(&self) -> ItemView {
        ItemView {
            traditional: self.traditional_character@,
            simplified: self.simplified_character@,
            pinyin: texts(self.pinyin_tone_number@),
            translations: texts(self.translations@),
        }
    }
}

/// The characters of an entry in the given variant.
pub open spec fn character_of(item: ItemView, variant: KeyVariant) -> Seq<char> {
    match variant {
        KeyVariant::Simplified => item.simplified,
        KeyVariant::Traditional => item.traditional,
    }
}

/// The part of a line that a parse found missing.
pub enum Missing {
    /// No `/` follows the head of the line.
    Translations,
    /// The head of the line holds no bracket.
    Pinyin,
    /// Nothing stands before the bracket.
    Characters,
}

/// The scan behind `pieces`: `done` holds the pieces already closed and
/// `cur` the piece that is open at position `at`.
pub open spec fn pieces_from(
    text: Seq<char>,
    a: char,
    b: char,
    at: int,
    cur: Seq<char>,
    done: Seq<Seq<char>>,
) -> Seq<Seq<char>>
    decreases text.len() - at,
{
    if at < 0 || at >= text.len() {
        done.push(cur)
    } else if text[at] == a || text[at] == b {
        pieces_from(text, a, b, at + 1, Seq::empty(), done.push(cur))
    } else {
        pieces_from(text, a, b, at + 1, cur.push(text[at]), done)
    }
}

/// The stretches of a text between the occurrences of the separators `a` and
/// `b`, empty ones included: one more than there are separators.
pub open spec fn pieces(text: Seq<char>, a: char, b: char) -> Seq<Seq<char>> {
    pieces_from(text, a, b, 0, Seq::empty(), Seq::empty())
}

/// The texts of a sequence that are not empty, in order.
pub open spec fn filled(parts: Seq<Seq<char>>) -> Seq<Seq<char>>
    decreases parts.len(),
{
    if parts.len() == 0 {
        parts
    } else if parts.last().len() == 0 {
        filled(parts.drop_last())
    } else {
        filled(parts.drop_last()).push(parts.last())
    }
}

/// What a line of the dictionary says. The head of the line is what stands
/// before the first `/`; the pieces behind it that are not empty are the
/// translations. Inside the head, the words before the first bracket give
/// the traditional form (the first word) and the simplified form (the last),
/// and the words between the first two brackets are the pinyin syllables.
pub open spec fn parse_line(line: Seq<char>) -> Result<ItemView, Missing> {
    let segments = pieces(line, '/', '/');
    let head = pieces(segments[0], '[', ']');
    if segments.len() < 2 {
        Err(Missing::Translations)
    } else if head.len() < 2 {
        Err(Missing::Pinyin)
    } else if words(head[0]).len() == 0 {
        Err(Missing::Characters)
    } else {
        Ok(
            ItemView {
                traditional: words(head[0]).first(),
                simplified: words(head[0]).last(),
                pinyin: words(head[1]),
                translations: filled(segments.skip(1)),
            },
        )
    }
}

/// The message of the error that reports a missing part.
pub open spec fn missing_message(m: Missing) -> Seq<char> {
    match m {
        Missing::Translations => "Unable to found the translations"@,
        Missing::Pinyin => "Unable to found pinyin"@,
        Missing::Characters => "Unable to found the tradtional character"@,
    }
}

proof fn lemma_pieces_from_rejoin(
    text: Seq<char>,
    a: char,
    at: int,
    cur: Seq<char>,
    done: Seq<Seq<char>>,
)
    requires
        0 <= at <= text.len(),
    ensures
        join(pieces_from(text, a, a, at, cur, done), seq![a]) == join(done.push(cur), seq![a])
            + text.skip(at),
    decreases text.len() - at,
{
    let sep = seq![a];
    if at >= text.len() {
        assert(text.skip(at) =~= Seq::<char>::empty());
        assert(join(done.push(cur), sep) + Seq::<char>::empty() =~= join(done.push(cur), sep));
    } else if text[at] == a {
        let next = done.push(cur);
        lemma_pieces_from_rejoin(text, a, at + 1, Seq::empty(), next);
        assert(next.push(Seq::empty()).drop_last() =~= next);
        assert(text.skip(at) =~= sep + text.skip(at + 1));
        assert((join(next, sep) + sep + Seq::<char>::empty()) + text.skip(at + 1) =~= join(
            next,
            sep,
        ) + (sep + text.skip(at + 1)));
    } else {
        let longer = cur.push(text[at]);
        lemma_pieces_from_rejoin(text, a, at + 1, longer, done);
        assert(done.push(longer).drop_last() =~= done);
        assert(done.push(cur).drop_last() =~= done);
        assert(text.skip(at) =~= seq![text[at]] + text.skip(at + 1));
        if done.len() == 0 {
            assert(join(done.push(longer), sep) + text.skip(at + 1) =~= join(done.push(cur), sep)
                + text.skip(at));
        } else {
            assert((join(done, sep) + sep + longer) + text.skip(at + 1) =~= (join(done, sep) + sep
                + cur) + text.skip(at));
        }
    }
}

/// Cutting a text at a separator loses nothing: the pieces, joined with the
/// separator, are the text.
pub proof fn lemma_pieces_rejoin(text: Seq<char>, a: char)
    ensures
        join(pieces(text, a, a), seq![a]) == text,
{
    lemma_pieces_from_rejoin(text, a, 0, Seq::empty(), Seq::empty());
    assert(Seq::<Seq<char>>::empty().push(Seq::<char>::empty()).len() == 1);
    assert(text.skip(0) =~= text);
    assert(Seq::<char>::empty() + text =~= text);
}

/// A text that holds neither of two separators.
pub open spec fn is_piece(p: Seq<char>, a: char, b: char) -> bool {
    forall|i: int| 0 <= i < p.len() ==> (#[trigger] p[i]) != a && p[i] != b
}

proof fn lemma_pieces_from_are_pieces(
    text: Seq<char>,
    a: char,
    b: char,
    at: int,
    cur: Seq<char>,
    done: Seq<Seq<char>>,
)
    requires
        0 <= at <= text.len(),
        is_piece(cur, a, b),
        forall|k: int| 0 <= k < done.len() ==> is_piece(#[trigger] done[k], a, b),
    ensures
        forall|k: int|
            0 <= k < pieces_from(text, a, b, at, cur, done).len() ==> is_piece(
                #[trigger] pieces_from(text, a, b, at, cur, done)[k],
                a,
                b,
            ),
    decreases text.len() - at,
{
    let closed = done.push(cur);
    assert forall|k: int| 0 <= k < closed.len() implies is_piece(#[trigger] closed[k], a, b) by {
        if k < done.len() {
            assert(closed[k] == done[k]);
        }
    }
    let all = pieces_from(text, a, b, at, cur, done);
    if at >= text.len() {
        assert(all == closed);
    } else if text[at] == a || text[at] == b {
        lemma_pieces_from_are_pieces(text, a, b, at + 1, Seq::empty(), closed);
        assert(all == pieces_from(text, a, b, at + 1, Seq::empty(), closed));
    } else {
        let longer = cur.push(text[at]);
        assert forall|i: int| 0 <= i < longer.len() implies (#[trigger] longer[i]) != a
            && longer[i] != b by {
            if i < cur.len() {
                assert(longer[i] == cur[i]);
            }
        }
        lemma_pieces_from_are_pieces(text, a, b, at + 1, longer, done);
        assert(all == pieces_from(text, a, b, at + 1, longer, done));
    }
}

/// No piece of a text holds a separator.
pub proof fn lemma_pieces_hold_no_separator(text: Seq<char>, a: char, b: char)
    ensures
        forall|k: int|
            0 <= k < pieces(text, a, b).len() ==> is_piece(#[trigger] pieces(text, a, b)[k], a, b),
{
    lemma_pieces_from_are_pieces(text, a, b, 0, Seq::empty(), Seq::empty());
}

/// Splits a text at every occurrence of `a` or `b`.
pub fn split_on(text: &Vec<char>, a: char, b: char) -> (r: Vec<Vec<char>>)
    ensures
        rows(r@) == pieces(text@, a, b),
        r.len() >= 1,
{
    let mut done: Vec<Vec<char>> = Vec::new();
    let mut cur: Vec<char> = Vec::new();
    let mut i: usize = 0;
    assert(rows(done@) =~= Seq::<Seq<char>>::empty());
    while i < text.len()
        invariant
            i <= text.len(),
            pieces_from(text@, a, b, i as int, cur@, rows(done@)) == pieces(text@, a, b),
        decreases text.len() - i,
    {
        let c = text[i];
        if c == a || c == b {
            let ghost before = rows(done@);
            let ghost piece = cur@;
            done.push(cur);
            cur = Vec::new();
            assert(rows(done@) =~= before.push(piece));
            assert(cur@ =~= Seq::<char>::empty());
        } else {
            cur.push(c);
        }
        i += 1;
    }
    let ghost before = rows(done@);
    let ghost piece = cur@;
    done.push(cur);
    assert(rows(done@) =~= before.push(piece));
    done
}

/// The strings of a vector of character vectors.
pub fn strings_of(v: &Vec<Vec<char>>) -> (r: Vec<String>)
    ensures
        texts(r@) == rows(v@),
{
    let mut out: Vec<String> = Vec::new();
    let mut i: usize = 0;
    while i < v.len()
        invariant
            i <= v.len(),
            out.len() == i,
            forall|j: int| 0 <= j < i ==> (#[trigger] out@[j])@ == v@[j]@,
        decreases v.len() - i,
    {
        out.push(string_of(&v[i]));
        i += 1;
    }
    assert(texts(out@) =~= rows(v@));
    out
}

/// Keeps the pieces from position `from` on that are not empty.
fn filter_empty_check(parts: &Vec<Vec<char>>, from: usize) -> (r: Vec<String>)
    requires
        from <= parts.len(),
    ensures
        texts(r@) == filled(rows(parts@).skip(from as int)),
{
    let mut out: Vec<String> = Vec::new();
    let mut i: usize = from;
    let ghost all = rows(parts@).skip(from as int);
    assert(all.take(0) =~= Seq::<Seq<char>>::empty());
    assert(texts(out@) =~= Seq::<Seq<char>>::empty());
    while i < parts.len()
        invariant
            from <= i <= parts.len(),
            all == rows(parts@).skip(from as int),
            texts(out@) == filled(all.take(i - from)),
        decreases parts.len() - i,
    {
        let ghost before = texts(out@);
        assert(all.take(i + 1 - from).drop_last() =~= all.take(i - from));
        assert(all.take(i + 1 - from).last() == parts@[i as int]@);
        if parts[i].len() > 0 {
            out.push(string_of(&parts[i]));
            assert(texts(out@) =~= before.push(parts@[i as int]@));
        }
        i += 1;
    }
    assert(all.take(parts.len() - from) =~= all);
    out
}

impl Item {
    /// Reads one line of the dictionary. The line must hold a `/`, a bracket
    /// before it, and a word before the bracket; the error says which of
    /// these is missing.
    pub fn try_from(line: String) -> (r: Result<Item, Error>)
        ensures
            match r {
                Ok(item) => parse_line(line@) == Ok::<ItemView, Missing>(item@),
                Err(e) => parse_line(line@) is Err && e is Parse && e.message() == missing_message(
                    parse_line(line@)->Err_0,
                ),
            },
    {
        let text = chars_of(line.as_str());
        Item::parse_chars(&text)
    }

    /// Reads one line of the dictionary, given as characters.
    pub fn parse_chars(text: &Vec<char>) -> (r: Result<Item, Error>)
        ensures
            match r {
                Ok(item) => parse_line(text@) == Ok::<ItemView, Missing>(item@),
                Err(e) => parse_line(text@) is Err && e is Parse && e.message() == missing_message(
                    parse_line(text@)->Err_0,
                ),
            },
    {
        let segments = split_on(text, '/', '/');
        assert(rows(segments@)[0] == segments@[0]@);
        if segments.len() < 2 {
            return Err(Error::Parse("Unable to found the translations".to_string()));
        }
        let head = split_on(&segments[0], '[', ']');
        if head.len() < 2 {
            return Err(Error::Parse("Unable to found pinyin".to_string()));
        }
        assert(rows(head@)[0] == head@[0]@);
        assert(rows(head@)[1] == head@[1]@);
        let names = split_words(&head[0]);
        if names.len() == 0 {
            return Err(Error::Parse("Unable to found the tradtional character".to_string()));
        }
        assert(rows(names@).first() == names@[0]@);
        assert(rows(names@).last() == names@[names.len() - 1]@);
        let syllables = split_words(&head[1]);
        let item = Item {
            traditional_character: string_of(&names[0]),
            simplified_character: string_of(&names[names.len() - 1]),
            pinyin_tone_number: strings_of(&syllables),
            translations: filter_empty_check(&segments, 1),
        };
        Ok(item)
    }

    /// The characters of the entry in the given variant.
    pub fn get_character_for_key_variant(&self, variant: &KeyVariant) -> (r: String)
        ensures
            r@ == character_of(self@, *variant),
    {
        match variant {
            KeyVariant::Simplified => self.simplified_character.clone(),
            KeyVariant::Traditional => self.traditional_character.clone(),
        }
    }
}

/// One line of a dictionary together with the key under which it is filed.
#[derive(Debug)]
pub struct Entry {
    pub key: Vec<char>,
    pub item: Item,
}

/// The rows of a dictionary as plain values.
pub open spec fn entries_of(entries: Seq<Entry>) -> Seq<(Seq<char>, ItemView)> {
    entries.map_values(|e: Entry| (e.key@, e.item@))
}

/// The mapping that a list of rows stands for: a later row replaces an
/// earlier one with the same key.
pub open spec fn map_of(rows: Seq<(Seq<char>, ItemView)>) -> Map<Seq<char>, ItemView>
    decreases rows.len(),
{
    if rows.len() == 0 {
        Map::empty()
    } else {
        map_of(rows.drop_last()).insert(rows.last().0, rows.last().1)
    }
}

/// Whether a line is a comment or a piece of metadata.
pub open spec fn is_comment(line: Seq<char>) -> bool {
    line.len() > 0 && (line[0] == '#' || line[0] == '%')
}

/// The dictionary that a list of lines stands for, keyed by the given
/// variant. Comment lines are passed over; the first line that cannot be
/// parsed makes the whole list fail.
pub open spec fn load(lines: Seq<Seq<char>>, key: KeyVariant) -> Result<
    Map<Seq<char>, ItemView>,
    Missing,
>
    decreases lines.len(),
{
    if lines.len() == 0 {
        Ok(Map::empty())
    } else {
        match load(lines.drop_last(), key) {
            Err(m) => Err(m),
            Ok(map) => if is_comment(lines.last()) {
                Ok(map)
            } else {
                match parse_line(lines.last()) {
                    Err(m) => Err(m),
                    Ok(item) => Ok(map.insert(character_of(item, key), item)),
                }
            },
        }
    }
}

/// A failure on the first lines of a list is the failure of the whole list.
pub proof fn lemma_load_fails_for_good(lines: Seq<Seq<char>>, key: KeyVariant, n: int)
    requires
        0 <= n <= lines.len(),
        load(lines.take(n), key) is Err,
    ensures
        load(lines, key) == load(lines.take(n), key),
    decreases lines.len() - n,
{
    if n == lines.len() {
        assert(lines.take(n) =~= lines);
    } else {
        assert(lines.take(n + 1).drop_last() =~= lines.take(n));
        lemma_load_fails_for_good(lines, key, n + 1);
    }
}

/// Whether the row at a position is the last one with its key.
pub open spec fn current_in(rows: Seq<Entry>, at: int) -> bool {
    forall|k: int| at < k < rows.len() ==> (#[trigger] rows[k]).key@ != rows[at].key@
}

/// The row that is the last one with its key is the one that the mapping
/// holds under that key.
pub proof fn lemma_current_row_counts(rows: Seq<Entry>, at: int)
    requires
        0 <= at < rows.len(),
        current_in(rows, at),
    ensures
        map_of(entries_of(rows)).contains_key(rows[at].key@),
        map_of(entries_of(rows))[rows[at].key@] == rows[at].item@,
    decreases rows.len(),
{
    let all = entries_of(rows);
    assert(all.last() == (rows.last().key@, rows.last().item@));
    if at < rows.len() - 1 {
        assert(rows[rows.len() - 1].key@ != rows[at].key@);
        let front = rows.drop_last();
        assert(all.drop_last() =~= entries_of(front));
        assert forall|k: int| at < k < front.len() implies (#[trigger] front[k]).key@
            != front[at].key@ by {
            assert(front[k] == rows[k]);
        }
        lemma_current_row_counts(front, at);
    }
}

/// A dictionary: a mapping from the characters of an entry, in the variant
/// by which the dictionary is keyed, to the entry.
#[derive(Debug)]
pub struct Dictionary {
    entries: Vec<Entry>,
}

impl View for Dictionary {
    type V = Map<Seq<char>, ItemView>;

    closed spec fn view(&self) -> Map<Seq<char>, ItemView> {
        map_of(entries_of(self.entries@))
    }
}

impl Dictionary {
    /// A dictionary without entries.
    pub fn empty() -> (r: Dictionary)
        ensures
            r@ == Map::<Seq<char>, ItemView>::empty(),
    {
        let r = Dictionary { entries: Vec::new() };
        assert(entries_of(r.entries@) =~= Seq::empty());
        r
    }

    /// Files an entry under a key. An entry already filed under that key is
    /// replaced.
    pub fn insert(&mut self, key: Vec<char>, item: Item)
        ensures
            final(self)@ == old(self)@.insert(key@, item@),
    {
        let ghost before = entries_of(self.entries@);
        let ghost row = (key@, item@);
        self.entries.push(Entry { key, item });
        assert(entries_of(self.entries@) =~= before.push(row));
        assert(entries_of(self.entries@).drop_last() =~= before);
    }

    /// The entry filed under a key.
    pub fn get(&self, key: &Vec<char>) -> (r: Option<&Item>)
        ensures
            match r {
                Some(item) => self@.contains_key(key@) && self@[key@] == item@,
                None => !self@.contains_key(key@),
            },
    {
        let mut i: usize = self.entries.len();
        let ghost all = entries_of(self.entries@);
        assert(all.take(i as int) =~= all);
        while i > 0
            invariant
                i <= self.entries.len(),
                all == entries_of(self.entries@),
                map_of(all).contains_key(key@) == map_of(all.take(i as int)).contains_key(key@),
                map_of(all).contains_key(key@) ==> map_of(all)[key@] == map_of(
                    all.take(i as int),
                )[key@],
            decreases i,
        {
            let ghost part = all.take(i as int);
            assert(part.last() == (self.entries@[i - 1].key@, self.entries@[i - 1].item@));
            assert(part.drop_last() =~= all.take(i - 1));
            i -= 1;
            if same_chars(&self.entries[i].key, key) {
                return Some(&self.entries[i].item);
            }
        }
        assert(all.take(0) =~= Seq::empty());
        None
    }

    /// The rows of the dictionary in the order in which they were filed,
    /// replaced ones included.
    pub fn rows(&self) -> (r: &Vec<Entry>)
        ensures
            r@ == self.rows_spec(),
            map_of(entries_of(r@)) == self@,
    {
        &self.entries
    }

    /// Whether there is a row at a position that still counts: no later
    /// row has its key.
    pub fn is_current(&self, at: usize) -> (r: bool)
        ensures
            r == (at < self.rows_spec().len() && current_in(self.rows_spec(), at as int)),
    {
        let n = self.entries.len();
        if at >= n {
            return false;
        }
        let mut j: usize = at + 1;
        while j < n
            invariant
                n == self.entries.len(),
                at < j <= n,
                forall|k: int| at < k < j ==> (#[trigger] self.entries@[k]).key@ != self.entries@[at as int].key@,
            decreases n - j,
        {
            if same_chars(&self.entries[j].key, &self.entries[at].key) {
                return false;
            }
            j += 1;
        }
        true
    }

    /// The rows of the dictionary, for contracts.
    pub closed spec fn rows_spec(&self) -> Seq<Entry> {
        self.entries@
    }

    /// Builds the dictionary of a list of lines, keyed by the given variant.
    /// Lines that start with `#` or `%` are passed over. The first line that
    /// cannot be parsed makes the load fail with the error of that line.
    pub fn new(lines: &Vec<String>, key_variant: KeyVariant) -> (r: Result<Dictionary, Error>)
        ensures
            match r {
                Ok(d) => load(texts(lines@), key_variant) == Ok::<Map<Seq<char>, ItemView>, Missing>(
                    d@,
                ),
                Err(e) => load(texts(lines@), key_variant) is Err && e is Parse && e.message()
                    == missing_message(load(texts(lines@), key_variant)->Err_0),
            },
    {
        let mut dictionary = Dictionary::empty();
        let mut i: usize = 0;
        let ghost all = texts(lines@);
        assert(all.take(0) =~= Seq::<Seq<char>>::empty());
        while i < lines.len()
            invariant
                i <= lines.len(),
                all == texts(lines@),
                load(all.take(i as int), key_variant) == Ok::<Map<Seq<char>, ItemView>, Missing>(
                    dictionary@,
                ),
            decreases lines.len() - i,
        {
            let text = chars_of(lines[i].as_str());
            proof {
                assert(all.take(i + 1).drop_last() =~= all.take(i as int));
                assert(all.take(i + 1).last() == text@);
            }
            let comment = text.len() > 0 && (text[0] == '#' || text[0] == '%');
            if !comment {
                match Item::parse_chars(&text) {
                    Err(e) => {
                        proof {
                            lemma_load_fails_for_good(all, key_variant, i + 1);
                        }
                        return Err(e);
                    },
                    Ok(item) => {
                        let key = match key_variant {
                            KeyVariant::Simplified => chars_of(item.simplified_character.as_str()),
                            KeyVariant::Traditional => chars_of(
                                item.traditional_character.as_str(),
                            ),
                        };
                        dictionary.insert(key, item);
                    },
                }
            }
            i += 1;
        }
        assert(all.take(lines.len() as int) =~= all);
        Ok(dictionary)
    }
}

} // verus!
