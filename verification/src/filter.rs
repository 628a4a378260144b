//! The rules of a filter pipeline and the columns to sort by.

use std::str::FromStr;
use vstd::prelude::*;
use vstd::std_specs::cmp::PartialEqSpecImpl;
use vstd::string::*;

pub use crate::builder::Builder;
pub use crate::collection::Collection;
use crate::error::Error;
use crate::names::copy_texts;
use crate::names::same_texts;
use crate::score::Field;
use crate::text::matches_ignoring_case;
use crate::text::same_ignoring_case;

verus! {

/// The column that a sequence of scores is sorted by.
#[derive(Clone, Copy, Debug, PartialEq, Eq, Structural)]
pub enum SortColumn {
    PlayerName,
    Binary,
    Language,
    Time,
}

impl SortColumn {
    /// The column that `s` names, whatever the case of its ASCII letters.
    pub open spec fn named(s: Seq<char>) -> Option<SortColumn> {
        if same_ignoring_case(s, "player"@) || same_ignoring_case(s, "players"@)
            || same_ignoring_case(s, "name"@) || same_ignoring_case(s, "names"@) {
            Some(SortColumn::PlayerName)
        } else if same_ignoring_case(s, "binaries"@) || same_ignoring_case(s, "binary"@) {
            Some(SortColumn::Binary)
        } else if same_ignoring_case(s, "time"@) || same_ignoring_case(s, "times"@) {
            Some(SortColumn::Time)
        } else if same_ignoring_case(s, "language"@) || same_ignoring_case(s, "languages"@) {
            Some(SortColumn::Language)
        } else {
            None
        }
    }

    /// Reads the name of a column. A text that names none comes back in the
    /// error.
    pub fn parse(s: &str) -> (r: Result<SortColumn, Error>)
        ensures
            match r {
                Ok(column) => SortColumn::named(s@) == Some(column),
                Err(Error::InvalidSortColumn(text)) => SortColumn::named(s@) is None && text@
                    == s@,
                Err(_) => false,
            },
    {
        if matches_ignoring_case(s, "player") || matches_ignoring_case(s, "players")
            || matches_ignoring_case(s, "name") || matches_ignoring_case(s, "names") {
            Ok(SortColumn::PlayerName)
        } else if matches_ignoring_case(s, "binaries") || matches_ignoring_case(s, "binary") {
            Ok(SortColumn::Binary)
        } else if matches_ignoring_case(s, "time") || matches_ignoring_case(s, "times") {
            Ok(SortColumn::Time)
        } else if matches_ignoring_case(s, "language") || matches_ignoring_case(s, "languages") {
            Ok(SortColumn::Language)
        } else {
            Err(Error::InvalidSortColumn(s.to_owned()))
        }
    }
}

impl FromStr for SortColumn {
    type Err = Error;

    /// Reads the name of a column, as [`SortColumn::parse`] does.
    fn from_str(s: &str) -> (r: Result<Self, Error>)
        ensures
            match r {
                Ok(column) => SortColumn::named(s@) == Some(column),
                Err(Error::InvalidSortColumn(text)) => SortColumn::named(s@) is None && text@
                    == s@,
                Err(_) => false,
            },
    {
        SortColumn::parse(s)
    }
}

/// What a rule occupies in a pipeline. A pipeline holds one rule of a slot at
/// most.
#[derive(Clone, Copy, Debug, PartialEq, Eq, Structural)]
pub enum Slot {
    /// The limit from one end, whichever end and whatever count.
    Limit,
    /// The allow-list on one text.
    Allow(Field),
    /// The rule that keeps one score for each value of one text.
    Unique(Field),
    /// The sort by one column.
    Sort(SortColumn),
}

/// One rule of a pipeline, as a mathematical value.
pub enum FilterView {
    /// Keep the first scores, this many at most.
    Top(nat),
    /// Keep the last scores, this many at most.
    Bottom(nat),
    /// Keep the scores whose text is one of these.
    Allow(Field, Seq<Seq<char>>),
    /// Of the scores that share a text keep the first.
    Unique(Field),
    /// Sort by a column, ascending, scores that tie staying in their order.
    Sort(SortColumn),
}

impl FilterView {
    /// The slot that this rule occupies.
    pub open spec fn slot(self) -> Slot {
        match self {
            FilterView::Top(_) => Slot::Limit,
            FilterView::Bottom(_) => Slot::Limit,
            FilterView::Allow(field, _) => Slot::Allow(field),
            FilterView::Unique(field) => Slot::Unique(field),
            FilterView::Sort(column) => Slot::Sort(column),
        }
    }

    /// Whether two rules count as the same rule: they occupy the same slot
    /// and, if they are allow-lists, list the same texts in the same order.
    /// The two limits count as the same whatever their counts.
    pub open spec fn same_rule(self, other: FilterView) -> bool {
        match (self, other) {
            (FilterView::Allow(f, a), FilterView::Allow(g, b)) => f == g && a == b,
            _ => self.slot() == other.slot(),
        }
    }
}

/// Counting as the same rule is an equivalence: every rule counts as the
/// same as itself, either of two that count as the same counts as the same
/// as the other, and two that count as the same as a third count as the
/// same.
pub proof fn lemma_same_rule_equivalence(a: FilterView, b: FilterView, c: FilterView)
    ensures
        a.same_rule(a),
        a.same_rule(b) == b.same_rule(a),
        a.same_rule(b) && b.same_rule(c) ==> a.same_rule(c),
        a.same_rule(b) ==> a.slot() == b.slot(),
{
}

/// One rule of a pipeline.
#[derive(Debug)]
pub enum Filter {
    /// Keep the first scores, this many at most.
    Top(usize),
    /// Keep the last scores, this many at most.
    Bottom(usize),
    /// Keep the scores of these players.
    Player(Vec<String>),
    /// Keep the scores of these commands.
    Binary(Vec<String>),
    /// Keep the scores in these languages.
    Language(Vec<String>),
    /// Keep the first score of each player.
    UniquePlayers,
    /// Keep the first score of each command.
    UniqueBinaries,
    /// Keep the first score in each language.
    UniqueLanguages,
    /// Sort by a column.
    Sort(SortColumn),
}

impl View for Filter {
    type V = FilterView;

    open spec fn view(&self) -> FilterView {
        match self {
            Filter::Top(n) => FilterView::Top(*n as nat),
            Filter::Bottom(n) => FilterView::Bottom(*n as nat),
            Filter::Player(names) => FilterView::Allow(Field::Name, names.deep_view()),
            Filter::Binary(names) => FilterView::Allow(Field::Command, names.deep_view()),
            Filter::Language(names) => FilterView::Allow(Field::Language, names.deep_view()),
            Filter::UniquePlayers => FilterView::Unique(Field::Name),
            Filter::UniqueBinaries => FilterView::Unique(Field::Command),
            Filter::UniqueLanguages => FilterView::Unique(Field::Language),
            Filter::Sort(column) => FilterView::Sort(*column),
        }
    }
}

impl DeepView for Filter {
    type V = FilterView;

    open spec fn deep_view(&self) -> FilterView {
        self@
    }
}

impl Clone for Filter {
    fn clone(&self) -> (r: Self)
        ensures
            r@ == self@,
    {
        match self {
            Filter::Top(n) => Filter::Top(*n),
            Filter::Bottom(n) => Filter::Bottom(*n),
            Filter::Player(names) => Filter::Player(copy_texts(names)),
            Filter::Binary(names) => Filter::Binary(copy_texts(names)),
            Filter::Language(names) => Filter::Language(copy_texts(names)),
            Filter::UniquePlayers => Filter::UniquePlayers,
            Filter::UniqueBinaries => Filter::UniqueBinaries,
            Filter::UniqueLanguages => Filter::UniqueLanguages,
            Filter::Sort(column) => Filter::Sort(*column),
        }
    }
}

impl PartialEq for Filter {
    /// Whether two rules count as the same rule. This is the relation by
    /// which a pipeline replaces and removes rules, not equality of values.
    fn eq(&self, other: &Self) -> (r: bool) {
        match self.names() {
            Some(mine) => match other.names() {
                Some(theirs) => self.slot() == other.slot() && same_texts(mine, theirs),
                None => false,
            },
            None => self.slot() == other.slot(),
        }
    }
}

impl PartialEqSpecImpl for Filter {
    open spec fn obeys_eq_spec() -> bool {
        true
    }

    open spec fn eq_spec(&self, other: &Self) -> bool {
        self@.same_rule(other@)
    }
}

impl Filter {
    /// The slot that this rule occupies.
    pub fn slot(&self) -> (r: Slot)
        ensures
            r == self@.slot(),
    {
        match self {
            Filter::Top(_) => Slot::Limit,
            Filter::Bottom(_) => Slot::Limit,
            Filter::Player(_) => Slot::Allow(Field::Name),
            Filter::Binary(_) => Slot::Allow(Field::Command),
            Filter::Language(_) => Slot::Allow(Field::Language),
            Filter::UniquePlayers => Slot::Unique(Field::Name),
            Filter::UniqueBinaries => Slot::Unique(Field::Command),
            Filter::UniqueLanguages => Slot::Unique(Field::Language),
            Filter::Sort(column) => Slot::Sort(*column),
        }
    }

    /// The texts of an allow-list; of another rule, nothing.
    pub fn names(&self) -> (r: Option<&Vec<String>>)
        ensures
            match r {
                Some(names) => self@ matches FilterView::Allow(_, listed) && listed
                    == names.deep_view(),
                None => !(self@ is Allow),
            },
    {
        match self {
            Filter::Player(names) => Some(names),
            Filter::Binary(names) => Some(names),
            Filter::Language(names) => Some(names),
            _ => None,
        }
    }

    /// The allow-list of `names` on the text `field`.
    pub fn allow(field: Field, names: Vec<String>) -> (r: Filter)
        ensures
            r@ == FilterView::Allow(field, names.deep_view()),
    {
        match field {
            Field::Name => Filter::Player(names),
            Field::Command => Filter::Binary(names),
            Field::Language => Filter::Language(names),
        }
    }
}

} // verus!
