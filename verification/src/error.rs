//! The errors that the library reports.
use crate::text::{append_chars, chars_of, string_of};
use vstd::prelude::*;

verus! {

/// What went wrong, with a message for the user.
#[derive(Debug)]
pub enum Error {
    /// A table given as JSON could not be read.
    Json(String),
    /// A file could not be opened or read.
    Io(String),
    /// A dictionary line lacks one of its parts.
    Parse(String),
    /// A conversion was asked for without its dictionaries.
    Lookup(String),
}

impl Error {
    /// The message carried by the error.
    pub open spec fn message(&self) -> Seq<char> {
        match self {
            Error::Json(m) => m@,
            Error::Io(m) => m@,
            Error::Parse(m) => m@,
            Error::Lookup(m) => m@,
        }
    }

    /// The words that introduce the message of each kind of error.
    pub open spec fn heading(&self) -> Seq<char> {
        match self {
            Error::Json(_) => "Unable to parse json file: "@,
            Error::Io(_) => "Unable to process cedict: "@,
            Error::Parse(_) => "Unable to parse cedict file "@,
            Error::Lookup(_) => "Unable to use the dictionaries: "@,
        }
    }

    /// The sentence that reports the error: the heading of its kind, then
    /// its message.
    pub fn to_string(&self) -> (r: String)
        ensures
            r@ == self.heading() + self.message(),
    {
        let mut out = match self {
            Error::Json(_) => chars_of("Unable to parse json file: "),
            Error::Io(_) => chars_of("Unable to process cedict: "),
            Error::Parse(_) => chars_of("Unable to parse cedict file "),
            Error::Lookup(_) => chars_of("Unable to use the dictionaries: "),
        };
        let message = match self {
            Error::Json(m) => chars_of(m.as_str()),
            Error::Io(m) => chars_of(m.as_str()),
            Error::Parse(m) => chars_of(m.as_str()),
            Error::Lookup(m) => chars_of(m.as_str()),
        };
        append_chars(&mut out, &message);
        string_of(&out)
    }
}

} // verus!
