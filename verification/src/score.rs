//! The score record: one benchmark result.

use vstd::prelude::*;
use vstd::string::*;

use crate::error::Error;
use crate::error::Flaw;
use crate::time::is_time;
use crate::time::INFINITY;

verus! {

/// One of the texts of a score that a rule can read.
#[derive(Clone, Copy, Debug, PartialEq, Eq, Structural)]
pub enum Field {
    /// The player's name.
    Name,
    /// The command that was run.
    Command,
    /// The language of the source.
    Language,
}

/// What a [`Score`] holds, as mathematical values.
pub struct ScoreView {
    pub name: Seq<char>,
    pub command: Seq<char>,
    pub time_ns: u64,
    pub hash: Seq<char>,
    pub language: Seq<char>,
}

impl ScoreView {
    /// The text of this score that `field` names.
    pub open spec fn text(self, field: Field) -> Seq<char> {
        match field {
            Field::Name => self.name,
            Field::Command => self.command,
            Field::Language => self.language,
        }
    }

    /// The first reason, if any, for which this score must not be stored.
    pub open spec fn flaw(self) -> Option<Flaw> {
        if self.name.len() == 0 {
            Some(Flaw::EmptyName)
        } else if self.command.len() == 0 {
            Some(Flaw::EmptyCommand)
        } else if self.language.len() == 0 {
            Some(Flaw::EmptyLanguage)
        } else if !is_time(self.time_ns) {
            Some(Flaw::BadTime)
        } else {
            None
        }
    }

    /// The sentence that shows this score, with `who` for the player and
    /// `time` for the elapsed time.
    pub open spec fn sentence(self, who: Seq<char>, time: Seq<char>) -> Seq<char> {
        who + " ran "@ + self.command + " ("@ + self.language + ") in "@ + time
    }
}

/// One benchmark result.
///
/// `time_ns` is the elapsed time in nanoseconds, held as the bit pattern of an
/// IEEE 754 double. Among times that are neither negative nor NaN, a smaller
/// bit pattern is a shorter time.
#[derive(Debug)]
pub struct Score {
    pub name: String,
    pub command: String,
    pub time_ns: u64,
    pub hash: String,
    pub language: String,
}

impl View for Score {
    type V = ScoreView;

    open spec fn view(&self) -> ScoreView {
        ScoreView {
            name: self.name@,
            command: self.command@,
            time_ns: self.time_ns,
            hash: self.hash@,
            language: self.language@,
        }
    }
}

impl DeepView for Score {
    type V = ScoreView;

    open spec fn deep_view(&self) -> ScoreView {
        self@
    }
}

impl Clone for Score {
    fn clone(&self) -> (r: Self)
        ensures
            r == *self,
    {
        Score {
            name: self.name.clone(),
            command: self.command.clone(),
            time_ns: self.time_ns,
            hash: self.hash.clone(),
            language: self.language.clone(),
        }
    }
}

/// A value bound to a column of the table.
#[derive(Debug, PartialEq, Eq)]
pub enum Value {
    /// A text.
    Text(String),
    /// A double, as its bit pattern.
    Double(u64),
}

/// What a [`Value`] holds, as a mathematical value.
pub enum ValueView {
    Text(Seq<char>),
    Double(u64),
}

impl View for Value {
    type V = ValueView;

    open spec fn view(&self) -> ValueView {
        match self {
            Value::Text(text) => ValueView::Text(text@),
            Value::Double(bits) => ValueView::Double(*bits),
        }
    }
}

impl Clone for Value {
    fn clone(&self) -> (r: Self)
        ensures
            r == *self,
    {
        match self {
            Value::Text(text) => Value::Text(text.clone()),
            Value::Double(bits) => Value::Double(*bits),
        }
    }
}

/// The columns and their values that a list of parameters binds, in order.
pub open spec fn bindings(params: Seq<(String, Value)>) -> Seq<(Seq<char>, ValueView)> {
    params.map_values(|p: (String, Value)| (p.0@, p.1@))
}

/// The columns of the table, as they are declared when it is created.
pub open spec fn schema_text() -> Seq<char> {
    "id INT NOT NULL AUTO_INCREMENT, name TEXT NOT NULL, command TEXT NOT NULL, time_ns DOUBLE NOT NULL, hash TEXT NOT NULL, language TEXT NOT NULL, PRIMARY KEY (id)"@
}

/// The columns that an insertion fills and the parameters that fill them.
pub open spec fn statement_text() -> Seq<char> {
    "(name, command, time_ns, hash, language) VALUES (:name, :command, :time_ns, :hash, :language)"@
}

impl Score {
    pub fn new(name: &str, command: &str, time_ns: u64, hash: String, language: &str) -> (r: Self)
        ensures
            r@ == (ScoreView {
                name: name@,
                command: command@,
                time_ns,
                hash: hash@,
                language: language@,
            }),
    {
        Score {
            name: name.to_owned(),
            command: command.to_owned(),
            time_ns,
            hash,
            language: language.to_owned(),
        }
    }

    /// The text of this score that `field` names.
    pub fn text(&self, field: Field) -> (r: &String)
        ensures
            r@ == self@.text(field),
    {
        match field {
            Field::Name => &self.name,
            Field::Command => &self.command,
            Field::Language => &self.language,
        }
    }

    /// Checks that this score may be stored: its name, command and language
    /// are not empty and its time is a number that is not negative.
    pub fn validate(&self) -> (r: Result<(), Error>)
        ensures
            match r {
                Ok(_) => self@.flaw() is None,
                Err(e) => self@.flaw() is Some && e == Error::InvalidScore(self@.flaw()->0),
            },
    {
        if self.name.as_str().is_empty() {
            Err(Error::InvalidScore(Flaw::EmptyName))
        } else if self.command.as_str().is_empty() {
            Err(Error::InvalidScore(Flaw::EmptyCommand))
        } else if self.language.as_str().is_empty() {
            Err(Error::InvalidScore(Flaw::EmptyLanguage))
        } else if self.time_ns > INFINITY {
            Err(Error::InvalidScore(Flaw::BadTime))
        } else {
            Ok(())
        }
    }

    /// Shows this score in a sentence, `time` being its time as shown.
    pub fn render(&self, time: &str) -> (r: String)
        ensures
            r@ == self@.sentence(self.name@, time@),
    {
        self.render_as(self.name.as_str(), time)
    }

    /// Shows this score in a sentence under the name `who`.
    pub fn render_as(&self, who: &str, time: &str) -> (r: String)
        ensures
            r@ == self@.sentence(who@, time@),
    {
        let mut r = who.to_owned();
        r.append(" ran ");
        r.append(self.command.as_str());
        r.append(" (");
        r.append(self.language.as_str());
        r.append(") in ");
        r.append(time);
        r
    }

    /// The columns of the table, as they are declared when it is created.
    pub fn schema() -> (r: String)
        ensures
            r@ == schema_text(),
    {
        "id INT NOT NULL AUTO_INCREMENT, name TEXT NOT NULL, command TEXT NOT NULL, time_ns DOUBLE NOT NULL, hash TEXT NOT NULL, language TEXT NOT NULL, PRIMARY KEY (id)".to_owned()
    }

    /// What inserts this score: the tail of the statement and the value of
    /// each of its parameters.
    pub fn as_insert(&self) -> (r: (String, Vec<(String, Value)>))
        ensures
            r.0@ == statement_text(),
            bindings(r.1@) == self@.parameters(),
    {
        (self.statement(), self.parameters())
    }

    fn statement(&self) -> (r: String)
        ensures
            r@ == statement_text(),
    {
        "(name, command, time_ns, hash, language) VALUES (:name, :command, :time_ns, :hash, :language)".to_owned()
    }

    fn parameters(&self) -> (r: Vec<(String, Value)>)
        ensures
            bindings(r@) == self@.parameters(),
    {
        let mut r: Vec<(String, Value)> = Vec::new();
        r.push(("name".to_owned(), Value::Text(self.name.clone())));
        r.push(("command".to_owned(), Value::Text(self.command.clone())));
        r.push(("time_ns".to_owned(), Value::Double(self.time_ns)));
        r.push(("hash".to_owned(), Value::Text(self.hash.clone())));
        r.push(("language".to_owned(), Value::Text(self.language.clone())));
        assert(bindings(r@) =~= self@.parameters());
        r
    }
}

impl ScoreView {
    /// Each column that an insertion names, bound to this score's own value
    /// for it.
    pub open spec fn parameters(self) -> Seq<(Seq<char>, ValueView)> {
        seq![
            ("name"@, ValueView::Text(self.name)),
            ("command"@, ValueView::Text(self.command)),
            ("time_ns"@, ValueView::Double(self.time_ns)),
            ("hash"@, ValueView::Text(self.hash)),
            ("language"@, ValueView::Text(self.language)),
        ]
    }
}

} // verus!
