//! Conversions between Mandarin romanisations and between script variants:
//! pinyin with tone digits or tone marks, Zhuyin, Wade-Giles, and simplified
//! or traditional characters through a CC-CEDICT dictionary.
use crate::cedict::{load, missing_message, texts, Dictionary, Missing};
use crate::error::Error;
use crate::pinyin::{mark_words, marked_sentence, number_words, numbered_sentence};
use crate::text::{chars_of, string_of};
use crate::variant::{convert_with, converted, detect_with, initialize_dictionaries,
    unicode_variant_of, variant_of, KeyVariant, Lexicon};
use crate::wade_giles::{wade_giles_sentence, wade_giles_words};
use crate::zhuyin::{zhuyin_sentence, zhuyin_words, Zhuyin};
use vstd::prelude::*;

pub mod cedict;
pub mod error;
pub mod hsk;
pub mod pinyin;
pub mod record;
pub mod text;
pub mod variant;
pub mod wade_giles;
pub mod zhuyin;

verus! {

/// Transcribes a sentence of pinyin with tone marks into Zhuyin, word by
/// word, under the given tables.
pub fn convert_pinyin_to_zhuyin(text: &str, zh: &Zhuyin) -> (r: Result<String, Error>)
    ensures
        r is Ok,
        r->Ok_0@ == zhuyin_sentence(*zh, text@),
{
    let chars = chars_of(text);
    let out = zhuyin_words(zh, &chars);
    Ok(string_of(&out))
}

/// Converts a sentence of pinyin into Wade-Giles, word by word.
pub fn convert_pinyin_to_wade_giles(text: &str) -> (r: Result<String, Error>)
    ensures
        r is Ok,
        r->Ok_0@ == wade_giles_sentence(text@),
{
    let chars = chars_of(text);
    let out = wade_giles_words(&chars);
    Ok(string_of(&out))
}

/// Writes the tones of a sentence of numbered pinyin as marks, word by word.
/// A word without a tone digit, or without a vowel, stays as it is.
pub fn convert_pinyin_tone_number_to_tone_mark(text: &str) -> (r: Result<String, Error>)
    ensures
        r is Ok,
        r->Ok_0@ == marked_sentence(text@),
{
    let chars = chars_of(text);
    let out = mark_words(&chars);
    Ok(string_of(&out))
}

/// Writes the tones of a sentence of pinyin with tone marks as digits, word
/// by word.
pub fn convert_pinyin_accent_to_pinyin_number(text: &str) -> (r: Result<String, Error>)
    ensures
        r is Ok,
        r->Ok_0@ == numbered_sentence(text@),
{
    let chars = chars_of(text);
    let out = number_words(&chars);
    Ok(string_of(&out))
}

/// Builds the dictionary of the lines of a CC-CEDICT source, keyed by the
/// given variant. Fails where a line cannot be parsed.
pub fn load_cedict_dictionary(lines: &Vec<String>, key_variant: KeyVariant) -> (r: Result<
    Dictionary,
    Error,
>)
    ensures
        match r {
            Ok(d) => load(texts(lines@), key_variant) == Ok::<Lexicon, Missing>(d@),
            Err(e) => load(texts(lines@), key_variant) is Err && e is Parse && e.message()
                == missing_message(load(texts(lines@), key_variant)->Err_0),
        },
{
    Dictionary::new(lines, key_variant)
}

/// Converts a text from one variant to the other through the dictionary
/// that the lines of a CC-CEDICT source stand for. Fails where a line of the
/// source cannot be parsed.
pub fn convert_text_to_desired_variant(
    lines: &Vec<String>,
    content: &str,
    input_variant: KeyVariant,
    target_variant: KeyVariant,
) -> (r: Result<String, Error>)
    ensures
        match r {
            Ok(out) => load(texts(lines@), input_variant) is Ok && out@ == converted(
                load(texts(lines@), input_variant)->Ok_0,
                target_variant,
                content@,
            ),
            Err(e) => load(texts(lines@), input_variant) is Err && e is Parse && e.message()
                == missing_message(load(texts(lines@), input_variant)->Err_0),
        },
{
    proof {
        crate::variant::lemma_load_fails_alike(texts(lines@));
    }
    let dictionaries = match initialize_dictionaries(lines) {
        Ok(d) => d,
        Err(e) => {
            return Err(e);
        },
    };
    match convert_with(Some(&dictionaries), content, input_variant, target_variant) {
        Ok(out) => Ok(out),
        Err(e) => Err(e),
    }
}

/// Tells in which variant a text is written: by the dictionary that the
/// lines of a CC-CEDICT source stand for where they are given, by the code
/// points of the text where they are not. Fails where a line of the source
/// cannot be parsed.
pub fn detect_which_variant(lines: Option<&Vec<String>>, content: &str) -> (r: Result<
    KeyVariant,
    Error,
>)
    ensures
        match lines {
            None => r == Ok::<KeyVariant, Error>(unicode_variant_of(content@)),
            Some(source) => match r {
                Ok(v) => load(texts(source@), KeyVariant::Simplified) is Ok && load(
                    texts(source@),
                    KeyVariant::Traditional,
                ) is Ok && v == variant_of(
                    load(texts(source@), KeyVariant::Simplified)->Ok_0,
                    load(texts(source@), KeyVariant::Traditional)->Ok_0,
                    content@,
                ),
                Err(e) => load(texts(source@), KeyVariant::Simplified) is Err && e is Parse
                    && e.message() == missing_message(
                    load(texts(source@), KeyVariant::Simplified)->Err_0,
                ),
            },
        },
{
    match lines {
        Some(source) => {
            let dictionaries = match initialize_dictionaries(source) {
                Ok(d) => d,
                Err(e) => {
                    return Err(e);
                },
            };
            Ok(detect_with(Some(&dictionaries), content))
        },
        None => Ok(detect_with(None, content)),
    }
}

} // verus!
