//! The levels of the HSK examination and the words that belong to them.
use crate::text::{chars_of, same_chars};
use vstd::prelude::*;

verus! {

/// A level of the HSK examination. The last one stands for the levels seven
/// to nine, which are examined together.
#[derive(Clone, Copy, Debug, PartialEq, Eq, Structural)]
pub enum HSKLevel {
    HSK1,
    HSK2,
    HSK3,
    HSK4,
    HSK5,
    HSK6,
    HSK7,
}

impl Default for HSKLevel {
    fn default() -> (r: HSKLevel)
        ensures
            r == HSKLevel::HSK1,
    {
        HSKLevel::HSK1
    }
}

/// The level that a name stands for. The last level goes by two names,
/// `hsk7-9` and `hsk7`. A name that is none of the known ones stands for the
/// first level.
pub open spec fn level_of_name(name: Seq<char>) -> HSKLevel {
    if name == "hsk2"@ {
        HSKLevel::HSK2
    } else if name == "hsk3"@ {
        HSKLevel::HSK3
    } else if name == "hsk4"@ {
        HSKLevel::HSK4
    } else if name == "hsk5"@ {
        HSKLevel::HSK5
    } else if name == "hsk6"@ {
        HSKLevel::HSK6
    } else if name == "hsk7-9"@ || name == "hsk7"@ {
        HSKLevel::HSK7
    } else {
        HSKLevel::HSK1
    }
}

/// The level at a position in the list of levels, counted from zero. A
/// position behind the sixth stands for the first level.
pub open spec fn level_at(position: usize) -> HSKLevel {
    if position == 1 {
        HSKLevel::HSK2
    } else if position == 2 {
        HSKLevel::HSK3
    } else if position == 3 {
        HSKLevel::HSK4
    } else if position == 4 {
        HSKLevel::HSK5
    } else if position == 5 {
        HSKLevel::HSK6
    } else {
        HSKLevel::HSK1
    }
}

impl From<usize> for HSKLevel {
    fn from(value: usize) -> (r: HSKLevel) {
        if value == 1 {
            HSKLevel::HSK2
        } else if value == 2 {
            HSKLevel::HSK3
        } else if value == 3 {
            HSKLevel::HSK4
        } else if value == 4 {
            HSKLevel::HSK5
        } else if value == 5 {
            HSKLevel::HSK6
        } else {
            HSKLevel::HSK1
        }
    }
}

impl vstd::std_specs::convert::FromSpecImpl<usize> for HSKLevel {
    open spec fn obeys_from_spec() -> bool {
        true
    }

    open spec fn from_spec(v: usize) -> HSKLevel {
        level_at(v)
    }
}

fn is_name(name: &Vec<char>, known: &str) -> (r: bool)
    ensures
        r == (name@ == known@),
{
    let k = chars_of(known);
    same_chars(name, &k)
}

impl HSKLevel {
    /// The name of the level.
    pub open spec fn name(&self) -> Seq<char> {
        match self {
            HSKLevel::HSK1 => "hsk1"@,
            HSKLevel::HSK2 => "hsk2"@,
            HSKLevel::HSK3 => "hsk3"@,
            HSKLevel::HSK4 => "hsk4"@,
            HSKLevel::HSK5 => "hsk5"@,
            HSKLevel::HSK6 => "hsk6"@,
            HSKLevel::HSK7 => "hsk7"@,
        }
    }

    /// The level that a name stands for.
    pub fn from_string(level: &str) -> (r: HSKLevel)
        ensures
            r == level_of_name(level@),
    {
        let name = chars_of(level);
        if is_name(&name, "hsk2") {
            HSKLevel::HSK2
        } else if is_name(&name, "hsk3") {
            HSKLevel::HSK3
        } else if is_name(&name, "hsk4") {
            HSKLevel::HSK4
        } else if is_name(&name, "hsk5") {
            HSKLevel::HSK5
        } else if is_name(&name, "hsk6") {
            HSKLevel::HSK6
        } else if is_name(&name, "hsk7-9") || is_name(&name, "hsk7") {
            HSKLevel::HSK7
        } else {
            HSKLevel::HSK1
        }
    }

    /// The name of the level, as a string.
    pub fn to_string(&self) -> (r: String)
        ensures
            r@ == self.name(),
    {
        match self {
            HSKLevel::HSK1 => "hsk1".to_string(),
            HSKLevel::HSK2 => "hsk2".to_string(),
            HSKLevel::HSK3 => "hsk3".to_string(),
            HSKLevel::HSK4 => "hsk4".to_string(),
            HSKLevel::HSK5 => "hsk5".to_string(),
            HSKLevel::HSK6 => "hsk6".to_string(),
            HSKLevel::HSK7 => "hsk7".to_string(),
        }
    }
}

/// The name of a level stands for that level.
pub proof fn lemma_level_name_round_trip(level: HSKLevel)
    ensures
        level_of_name(level.name()) == level,
{
    reveal_strlit("hsk1");
    reveal_strlit("hsk2");
    reveal_strlit("hsk3");
    reveal_strlit("hsk4");
    reveal_strlit("hsk5");
    reveal_strlit("hsk6");
    reveal_strlit("hsk7");
    reveal_strlit("hsk7-9");
    assert("hsk1"@[3] == '1');
    assert("hsk2"@[3] == '2');
    assert("hsk3"@[3] == '3');
    assert("hsk4"@[3] == '4');
    assert("hsk5"@[3] == '5');
    assert("hsk6"@[3] == '6');
    assert("hsk7"@[3] == '7');
    assert("hsk7-9"@.len() == 6);
}

/// One row of a list of HSK words: the name of a level and a word in
/// simplified characters.
#[derive(Debug, Clone)]
pub struct HskData {
    pub level: String,
    pub s_character: String,
}

/// The level of a word by a list of rows. Where a word is listed more than
/// once the last row counts.
pub open spec fn level_in(rows: Seq<HskData>, word: Seq<char>) -> Option<HSKLevel>
    decreases rows.len(),
{
    if rows.len() == 0 {
        None
    } else if rows.last().s_character@ == word {
        Some(level_of_name(rows.last().level@))
    } else {
        level_in(rows.drop_last(), word)
    }
}

/// Looks a word up in a list of rows.
pub fn find_level(rows: &Vec<HskData>, word: &str) -> (r: Option<HSKLevel>)
    ensures
        r == level_in(rows@, word@),
{
    let wanted = chars_of(word);
    let mut i: usize = rows.len();
    assert(rows@.take(i as int) =~= rows@);
    while i > 0
        invariant
            i <= rows.len(),
            wanted@ == word@,
            level_in(rows@.take(i as int), word@) == level_in(rows@, word@),
        decreases i,
    {
        assert(rows@.take(i as int).drop_last() =~= rows@.take(i - 1));
        i -= 1;
        let listed = chars_of(rows[i].s_character.as_str());
        if same_chars(&listed, &wanted) {
            return Some(HSKLevel::from_string(rows[i].level.as_str()));
        }
    }
    None
}

} // verus!
