//! What the library rejects, and why.

use vstd::prelude::*;
use vstd::string::*;

verus! {

/// Why a score is refused before it is stored.
#[derive(Clone, Copy, Debug, PartialEq, Eq, Structural)]
pub enum Flaw {
    /// The player's name is empty.
    EmptyName,
    /// The command is empty.
    EmptyCommand,
    /// The language is empty.
    EmptyLanguage,
    /// The time is negative or not a number.
    BadTime,
}

impl Flaw {
    /// The words that name this flaw.
    pub open spec fn words(self) -> Seq<char> {
        match self {
            Flaw::EmptyName => "empty name"@,
            Flaw::EmptyCommand => "empty command"@,
            Flaw::EmptyLanguage => "empty language"@,
            Flaw::BadTime => "time is negative or not a number"@,
        }
    }

    /// The words that name this flaw.
    pub fn describe(self) -> (r: &'static str)
        ensures
            r@ == self.words(),
    {
        match self {
            Flaw::EmptyName => "empty name",
            Flaw::EmptyCommand => "empty command",
            Flaw::EmptyLanguage => "empty language",
            Flaw::BadTime => "time is negative or not a number",
        }
    }
}

/// An input that the library rejected.
#[derive(Debug, PartialEq, Eq)]
pub enum Error {
    /// A text that names no sort column; it holds the text as it was given.
    InvalidSortColumn(String),
    /// A score that must not be stored.
    InvalidScore(Flaw),
}

impl Clone for Error {
    fn clone(&self) -> (r: Self)
        ensures
            r == *self,
    {
        match self {
            Error::InvalidSortColumn(text) => Error::InvalidSortColumn(text.clone()),
            Error::InvalidScore(flaw) => Error::InvalidScore(*flaw),
        }
    }
}

impl Error {
    /// The message of an error.
    pub open spec fn message_of(self) -> Seq<char> {
        match self {
            Error::InvalidSortColumn(text) => "invalid sort column: "@ + text@,
            Error::InvalidScore(flaw) => "invalid score: "@ + flaw.words(),
        }
    }

    /// Renders the error for a reader.
    pub fn message(&self) -> (r: String)
        ensures
            r@ == self.message_of(),
    {
        match self {
            Error::InvalidSortColumn(text) => {
                let mut r = "invalid sort column: ".to_owned();
                r.append(text.as_str());
                r
            },
            Error::InvalidScore(flaw) => {
                let mut r = "invalid score: ".to_owned();
                r.append(flaw.describe());
                r
            },
        }
    }
}

} // verus!
