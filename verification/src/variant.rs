//! The two script variants of written Chinese: converting a text from one to
//! the other through a dictionary, and telling in which one a text is
//! written.
use crate::cedict::{character_of, load, missing_message, texts, Dictionary, ItemView, Missing};
use crate::error::Error;
use crate::text::{append_chars, chars_of, string_of};
use vstd::prelude::*;

verus! {

/// The script variant of a text, or the one by which a dictionary is keyed.
#[derive(Debug, PartialEq, Eq, Clone, Copy, Structural)]
pub enum KeyVariant {
    Simplified,
    Traditional,
}

impl Default for KeyVariant {
    fn default() -> (r: KeyVariant)
        ensures
            r == KeyVariant::Simplified,
    {
        KeyVariant::Simplified
    }
}

/// A dictionary as a mapping of plain values.
pub type Lexicon = Map<Seq<char>, ItemView>;

/// What one character becomes: the form in the target variant of the entry
/// filed under it, or the character itself where there is no such entry.
pub open spec fn converted_char(lexicon: Lexicon, target: KeyVariant, c: char) -> Seq<char> {
    if lexicon.contains_key(seq![c]) {
        character_of(lexicon[seq![c]], target)
    } else {
        seq![c]
    }
}

/// What a text becomes, character by character.
pub open spec fn converted(lexicon: Lexicon, target: KeyVariant, text: Seq<char>) -> Seq<char>
    decreases text.len(),
{
    if text.len() == 0 {
        Seq::empty()
    } else {
        converted(lexicon, target, text.drop_last()) + converted_char(lexicon, target, text.last())
    }
}

/// Whether a character is known in its traditional form only.
pub open spec fn traditional_only(simplified: Lexicon, traditional: Lexicon, c: char) -> bool {
    !simplified.contains_key(seq![c]) && traditional.contains_key(seq![c])
}

/// The variant of a text by the dictionaries: traditional where one of its
/// characters is known in its traditional form only, simplified otherwise.
pub open spec fn variant_of(simplified: Lexicon, traditional: Lexicon, text: Seq<char>) -> KeyVariant {
    if exists|i: int| 0 <= i < text.len() && traditional_only(simplified, traditional, text[i]) {
        KeyVariant::Traditional
    } else {
        KeyVariant::Simplified
    }
}

/// Whether a character lies in one of the six blocks of ideographs that are
/// taken as a sign of traditional script: CJK Extension A and Extensions B
/// to F.
pub open spec fn in_traditional_block(c: char) -> bool {
    let n = c as u32;
    ||| 0x3400 <= n <= 0x4dbf
    ||| 0x20000 <= n <= 0x2a6df
    ||| 0x2a700 <= n <= 0x2b73f
    ||| 0x2b740 <= n <= 0x2b81f
    ||| 0x2b820 <= n <= 0x2ceaf
    ||| 0x2ceb0 <= n <= 0x2ebef
}

/// The variant of a text by its code points alone.
pub open spec fn unicode_variant_of(text: Seq<char>) -> KeyVariant {
    if exists|i: int| 0 <= i < text.len() && in_traditional_block(text[i]) {
        KeyVariant::Traditional
    } else {
        KeyVariant::Simplified
    }
}

/// The two dictionaries of one source: keyed by the simplified and by the
/// traditional form.
#[derive(Debug)]
pub struct Dictionaries {
    pub simplified: Dictionary,
    pub traditional: Dictionary,
}

impl Dictionaries {
    /// The dictionary keyed by the given variant, as a mapping.
    pub open spec fn lexicon(&self, variant: KeyVariant) -> Lexicon {
        match variant {
            KeyVariant::Simplified => self.simplified@,
            KeyVariant::Traditional => self.traditional@,
        }
    }
}

/// Builds both dictionaries from the lines of one source. Fails where a line
/// cannot be parsed.
pub fn initialize_dictionaries(lines: &Vec<String>) -> (r: Result<Dictionaries, Error>)
    ensures
        match r {
            Ok(d) => load(texts(lines@), KeyVariant::Simplified) == Ok::<Lexicon, Missing>(
                d.simplified@,
            ) && load(texts(lines@), KeyVariant::Traditional) == Ok::<Lexicon, Missing>(
                d.traditional@,
            ),
            Err(e) => load(texts(lines@), KeyVariant::Simplified) is Err && e is Parse
                && e.message() == missing_message(
                load(texts(lines@), KeyVariant::Simplified)->Err_0,
            ),
        },
{
    proof {
        lemma_load_fails_alike(texts(lines@));
    }
    let simplified = match Dictionary::new(lines, KeyVariant::Simplified) {
        Ok(d) => d,
        Err(e) => {
            return Err(e);
        },
    };
    let traditional = match Dictionary::new(lines, KeyVariant::Traditional) {
        Ok(d) => d,
        Err(e) => {
            return Err(e);
        },
    };
    Ok(Dictionaries { simplified, traditional })
}

/// Whether a list of lines can be loaded does not depend on the variant by
/// which the dictionary is keyed.
pub proof fn lemma_load_fails_alike(lines: Seq<Seq<char>>)
    ensures
        load(lines, KeyVariant::Simplified) is Err <==> load(lines, KeyVariant::Traditional) is Err,
        load(lines, KeyVariant::Simplified) is Err ==> load(lines, KeyVariant::Simplified)->Err_0
            == load(lines, KeyVariant::Traditional)->Err_0,
    decreases lines.len(),
{
    if lines.len() > 0 {
        lemma_load_fails_alike(lines.drop_last());
    }
}

fn is_traditional_block_char(c: char) -> (b: bool)
    ensures
        b == in_traditional_block(c),
{
    let n: u32 = c as u32;
    (0x3400 <= n && n <= 0x4dbf) || (0x20000 <= n && n <= 0x2a6df) || (0x2a700 <= n && n
        <= 0x2b73f) || (0x2b740 <= n && n <= 0x2b81f) || (0x2b820 <= n && n <= 0x2ceaf) || (0x2ceb0
        <= n && n <= 0x2ebef)
}

fn single(c: char) -> (r: Vec<char>)
    ensures
        r@ == seq![c],
{
    let mut key: Vec<char> = Vec::new();
    key.push(c);
    assert(key@ =~= seq![c]);
    key
}

impl KeyVariant {
    /// Converts a text, character by character, through the dictionary keyed
    /// by `input_variant`, into `target_variant`. Without dictionaries there
    /// is no result.
    pub fn convert_text_to_desired_variant(
        text: &str,
        input_variant: KeyVariant,
        target_variant: KeyVariant,
        dictionaries: Option<&Dictionaries>,
    ) -> (r: Option<String>)
        ensures
            match r {
                Some(out) => dictionaries is Some && out@ == converted(
                    dictionaries->0.lexicon(input_variant),
                    target_variant,
                    text@,
                ),
                None => dictionaries is None,
            },
    {
        let both = match dictionaries {
            Some(d) => d,
            None => {
                return None;
            },
        };
        let dictionary = match input_variant {
            KeyVariant::Simplified => &both.simplified,
            KeyVariant::Traditional => &both.traditional,
        };
        let chars = chars_of(text);
        let mut out: Vec<char> = Vec::new();
        let mut i: usize = 0;
        assert(chars@.take(0) =~= Seq::<char>::empty());
        while i < chars.len()
            invariant
                i <= chars.len(),
                out@ == converted(dictionary@, target_variant, chars@.take(i as int)),
            decreases chars.len() - i,
        {
            let c = chars[i];
            let key = single(c);
            proof {
                assert(chars@.take(i + 1).drop_last() =~= chars@.take(i as int));
                assert(chars@.take(i + 1).last() == c);
            }
            match dictionary.get(&key) {
                Some(item) => {
                    let form = item.get_character_for_key_variant(&target_variant);
                    let form_chars = chars_of(form.as_str());
                    append_chars(&mut out, &form_chars);
                },
                None => {
                    append_chars(&mut out, &key);
                },
            }
            i += 1;
        }
        assert(chars@.take(chars.len() as int) =~= chars@);
        Some(string_of(&out))
    }

    /// Tells by the dictionaries in which variant a text is written. Without
    /// dictionaries there is no result.
    pub fn which_variant(text: &str, dictionaries: Option<&Dictionaries>) -> (r: Option<KeyVariant>)
        ensures
            match r {
                Some(v) => dictionaries is Some && v == variant_of(
                    dictionaries->0.simplified@,
                    dictionaries->0.traditional@,
                    text@,
                ),
                None => dictionaries is None,
            },
    {
        let both = match dictionaries {
            Some(d) => d,
            None => {
                return None;
            },
        };
        let chars = chars_of(text);
        let mut i: usize = 0;
        while i < chars.len()
            invariant
                i <= chars.len(),
                chars@ == text@,
                dictionaries == Some(both),
                forall|j: int|
                    0 <= j < i ==> !traditional_only(
                        both.simplified@,
                        both.traditional@,
                        #[trigger] chars@[j],
                    ),
            decreases chars.len() - i,
        {
            let key = single(chars[i]);
            if both.simplified.get(&key).is_none() && both.traditional.get(&key).is_some() {
                assert(traditional_only(both.simplified@, both.traditional@, text@[i as int]));
                return Some(KeyVariant::Traditional);
            }
            i += 1;
        }
        Some(KeyVariant::Simplified)
    }

    /// Tells by the code points alone in which variant a text is written.
    pub fn detect_variant_with_unicode(content: &str) -> (r: KeyVariant)
        ensures
            r == unicode_variant_of(content@),
    {
        let chars = chars_of(content);
        let mut i: usize = 0;
        while i < chars.len()
            invariant
                i <= chars.len(),
                chars@ == content@,
                forall|j: int| 0 <= j < i ==> !in_traditional_block(#[trigger] chars@[j]),
            decreases chars.len() - i,
        {
            if is_traditional_block_char(chars[i]) {
                assert(in_traditional_block(content@[i as int]));
                return KeyVariant::Traditional;
            }
            i += 1;
        }
        KeyVariant::Simplified
    }
}

/// Converts a text through dictionaries that were built before. Where there
/// are none the conversion fails.
pub fn convert_with(
    dictionaries: Option<&Dictionaries>,
    content: &str,
    input_variant: KeyVariant,
    target_variant: KeyVariant,
) -> (r: Result<String, Error>)
    ensures
        match r {
            Ok(out) => dictionaries is Some && out@ == converted(
                dictionaries->0.lexicon(input_variant),
                target_variant,
                content@,
            ),
            Err(e) => dictionaries is None && e is Lookup && e.message()
                == "Unable to convert content to target key variant"@,
        },
{
    match KeyVariant::convert_text_to_desired_variant(
        content,
        input_variant,
        target_variant,
        dictionaries,
    ) {
        Some(out) => Ok(out),
        None => Err(Error::Lookup("Unable to convert content to target key variant".to_string())),
    }
}

/// Tells in which variant a text is written: by the dictionaries where
/// there are any, by the code points of the text where there are none.
pub fn detect_with(dictionaries: Option<&Dictionaries>, content: &str) -> (r: KeyVariant)
    ensures
        r == match dictionaries {
            Some(d) => variant_of(d.simplified@, d.traditional@, content@),
            None => unicode_variant_of(content@),
        },
{
    match KeyVariant::which_variant(content, dictionaries) {
        Some(v) => v,
        None => KeyVariant::detect_variant_with_unicode(content),
    }
}

/// Converting a text that ends in `c` is converting what stands before `c`
/// and then `c`.
pub proof fn lemma_converted_push(lexicon: Lexicon, target: KeyVariant, text: Seq<char>, c: char)
    ensures
        converted(lexicon, target, text.push(c)) == converted(lexicon, target, text)
            + converted_char(lexicon, target, c),
{
    assert(text.push(c).drop_last() =~= text);
}

/// Conversion works on each character by itself: a text made of two parts
/// converts to the two converted parts.
pub proof fn lemma_converted_concat(
    lexicon: Lexicon,
    target: KeyVariant,
    a: Seq<char>,
    b: Seq<char>,
)
    ensures
        converted(lexicon, target, a + b) == converted(lexicon, target, a) + converted(
            lexicon,
            target,
            b,
        ),
    decreases b.len(),
{
    if b.len() == 0 {
        assert(a + b =~= a);
        assert(converted(lexicon, target, a) + Seq::<char>::empty() =~= converted(
            lexicon,
            target,
            a,
        ));
    } else {
        let front = b.drop_last();
        assert(a + b =~= (a + front).push(b.last()));
        assert(b =~= front.push(b.last()));
        lemma_converted_push(lexicon, target, a + front, b.last());
        lemma_converted_push(lexicon, target, front, b.last());
        lemma_converted_concat(lexicon, target, a, front);
        assert((converted(lexicon, target, a) + converted(lexicon, target, front))
            + converted_char(lexicon, target, b.last()) =~= converted(lexicon, target, a) + (
        converted(lexicon, target, front) + converted_char(lexicon, target, b.last())));
    }
}

/// A text in which no character is a key of the dictionary.
pub open spec fn unlisted(lexicon: Lexicon, text: Seq<char>) -> bool {
    forall|i: int| 0 <= i < text.len() ==> !lexicon.contains_key(seq![#[trigger] text[i]])
}

/// Conversion leaves the characters that the dictionary does not list as
/// they are, wherever they stand in the text: letters, digits, spaces and
/// punctuation among them, as long as the dictionary has no entry for them.
pub proof fn lemma_unlisted_characters_stay(
    lexicon: Lexicon,
    target: KeyVariant,
    before: Seq<char>,
    plain: Seq<char>,
    after: Seq<char>,
)
    requires
        unlisted(lexicon, plain),
    ensures
        converted(lexicon, target, plain) == plain,
        converted(lexicon, target, before + plain + after) == converted(lexicon, target, before)
            + plain + converted(lexicon, target, after),
    decreases plain.len(),
{
    if plain.len() > 0 {
        let front = plain.drop_last();
        assert(!lexicon.contains_key(seq![plain[plain.len() - 1]]));
        assert forall|i: int| 0 <= i < front.len() implies !lexicon.contains_key(
            seq![#[trigger] front[i]],
        ) by {
            assert(front[i] == plain[i]);
        }
        lemma_unlisted_characters_stay(lexicon, target, before, front, after);
        assert(front + seq![plain.last()] =~= plain);
    } else {
        assert(plain =~= Seq::<char>::empty());
    }
    lemma_converted_concat(lexicon, target, before + plain, after);
    lemma_converted_concat(lexicon, target, before, plain);
}

/// Detection by the dictionaries passes over the characters that the
/// traditional dictionary does not list: with or without them the answer is
/// the same.
pub proof fn lemma_unlisted_characters_do_not_count(
    simplified: Lexicon,
    traditional: Lexicon,
    before: Seq<char>,
    plain: Seq<char>,
    after: Seq<char>,
)
    requires
        unlisted(traditional, plain),
    ensures
        variant_of(simplified, traditional, before + plain + after) == variant_of(
            simplified,
            traditional,
            before + after,
        ),
{
    let with = before + plain + after;
    let without = before + after;
    if exists|i: int| 0 <= i < with.len() && traditional_only(simplified, traditional, with[i]) {
        let i = choose|i: int|
            0 <= i < with.len() && traditional_only(simplified, traditional, with[i]);
        if i < before.len() {
            assert(without[i] == with[i]);
        } else if i < before.len() + plain.len() {
            assert(with[i] == plain[i - before.len()]);
            assert(!traditional.contains_key(seq![plain[i - before.len()]]));
        } else {
            assert(without[i - plain.len()] == with[i]);
        }
    }
    if exists|i: int|
        0 <= i < without.len() && traditional_only(simplified, traditional, without[i]) {
        let i = choose|i: int|
            0 <= i < without.len() && traditional_only(simplified, traditional, without[i]);
        if i < before.len() {
            assert(with[i] == without[i]);
        } else {
            assert(with[i + plain.len()] == without[i]);
        }
    }
}

/// Detection by code points passes over ASCII characters: with or without
/// them the answer is the same.
pub proof fn lemma_ascii_does_not_count(before: Seq<char>, plain: Seq<char>, after: Seq<char>)
    requires
        forall|i: int| 0 <= i < plain.len() ==> (#[trigger] plain[i]) as u32 <= 0x7f,
    ensures
        unicode_variant_of(before + plain + after) == unicode_variant_of(before + after),
{
    let with = before + plain + after;
    let without = before + after;
    if exists|i: int| 0 <= i < with.len() && in_traditional_block(with[i]) {
        let i = choose|i: int| 0 <= i < with.len() && in_traditional_block(with[i]);
        if i < before.len() {
            assert(without[i] == with[i]);
        } else if i < before.len() + plain.len() {
            assert(with[i] == plain[i - before.len()]);
        } else {
            assert(without[i - plain.len()] == with[i]);
        }
    }
    if exists|i: int| 0 <= i < without.len() && in_traditional_block(without[i]) {
        let i = choose|i: int| 0 <= i < without.len() && in_traditional_block(without[i]);
        if i < before.len() {
            assert(with[i] == without[i]);
        } else {
            assert(with[i + plain.len()] == without[i]);
        }
    }
}

/// Whether the two dictionaries mirror each other at a character of the
/// simplified script: its entry names a traditional form of one character,
/// and the entry of that character names it back.
pub open spec fn mirrored(simplified: Lexicon, traditional: Lexicon, c: char) -> bool {
    &&& simplified.contains_key(seq![c])
    &&& simplified[seq![c]].traditional.len() == 1
    &&& traditional.contains_key(simplified[seq![c]].traditional)
    &&& traditional[simplified[seq![c]].traditional].simplified == seq![c]
}

/// Converting a simplified text to the traditional script and back gives
/// the text again, where the two dictionaries mirror each other at every
/// character of it.
pub proof fn lemma_convert_there_and_back(
    simplified: Lexicon,
    traditional: Lexicon,
    text: Seq<char>,
)
    requires
        forall|i: int| 0 <= i < text.len() ==> mirrored(simplified, traditional, #[trigger] text[i]),
    ensures
        converted(
            traditional,
            KeyVariant::Simplified,
            converted(simplified, KeyVariant::Traditional, text),
        ) == text,
    decreases text.len(),
{
    if text.len() > 0 {
        let front = text.drop_last();
        let c = text.last();
        assert(mirrored(simplified, traditional, text[text.len() - 1]));
        assert forall|i: int| 0 <= i < front.len() implies mirrored(
            simplified,
            traditional,
            #[trigger] front[i],
        ) by {
            assert(front[i] == text[i]);
        }
        lemma_convert_there_and_back(simplified, traditional, front);
        let there = converted(simplified, KeyVariant::Traditional, front);
        let form = simplified[seq![c]].traditional;
        assert(form =~= seq![form[0]]);
        lemma_converted_concat(traditional, KeyVariant::Simplified, there, form);
        lemma_converted_push(traditional, KeyVariant::Simplified, Seq::empty(), form[0]);
        assert(Seq::<char>::empty().push(form[0]) =~= form);
        assert(Seq::<char>::empty() + seq![c] =~= seq![c]);
        assert(front + seq![c] =~= text);
    }
}

} // verus!
