//! The built pipeline and what it does to a sequence of scores.

use vstd::prelude::*;

use crate::filter::Filter;
use crate::filter::FilterView;
use crate::order::sort_scores;
use crate::order::sorted_by;
use crate::score::Field;
use crate::score::Score;
use crate::score::ScoreView;
use crate::select::allowed;
use crate::select::copy_range;
use crate::select::first;
use crate::select::keep_allowed;
use crate::select::keep_first;
use crate::select::keep_last;
use crate::select::keep_unique;
use crate::select::last;
use crate::select::unique;

verus! {

/// What one rule makes of a sequence of scores.
pub open spec fn step(rule: FilterView, s: Seq<ScoreView>) -> Seq<ScoreView> {
    match rule {
        FilterView::Top(n) => first(s, n),
        FilterView::Bottom(n) => last(s, n),
        FilterView::Allow(field, names) => allowed(s, field, names),
        FilterView::Unique(field) => unique(s, field),
        FilterView::Sort(column) => sorted_by(s, column),
    }
}

/// What the rules make of a sequence of scores, applied from the first to the
/// last, each to what the one before it left.
pub open spec fn run(rules: Seq<FilterView>, s: Seq<ScoreView>) -> Seq<ScoreView>
    decreases rules.len(),
{
    if rules.len() == 0 {
        s
    } else {
        step(rules.last(), run(rules.drop_last(), s))
    }
}

/// No rules leave a sequence as it is.
pub proof fn lemma_run_nothing(s: Seq<ScoreView>)
    ensures
        run(Seq::<FilterView>::empty(), s) == s,
{
}

/// One rule more applies to what the rules before it left.
pub proof fn lemma_run_push(rules: Seq<FilterView>, rule: FilterView, s: Seq<ScoreView>)
    ensures
        run(rules.push(rule), s) == step(rule, run(rules, s)),
{
    assert(rules.push(rule).drop_last() =~= rules);
}

/// Rules in a row apply as the first ones, then the others.
pub proof fn lemma_run_concat(head: Seq<FilterView>, tail: Seq<FilterView>, s: Seq<ScoreView>)
    ensures
        run(head + tail, s) == run(tail, run(head, s)),
    decreases tail.len(),
{
    if tail.len() == 0 {
        assert(head + tail =~= head);
    } else {
        lemma_run_concat(head, tail.drop_last(), s);
        assert((head + tail).drop_last() =~= head + tail.drop_last());
    }
}

/// A pipeline: rules in the order in which they apply. Once built it does
/// not change.
#[derive(Debug)]
pub struct Collection {
    filters: Vec<Filter>,
}

impl View for Collection {
    type V = Seq<FilterView>;

    closed spec fn view(&self) -> Seq<FilterView> {
        self.filters.deep_view()
    }
}

impl Collection {
    pub(crate) fn of(filters: Vec<Filter>) -> (r: Self)
        ensures
            r@ == filters.deep_view(),
    {
        Collection { filters }
    }

    /// The rules, in the order in which they apply.
    pub fn filters(&self) -> (r: &Vec<Filter>)
        ensures
            r.deep_view() == self@,
    {
        &self.filters
    }

    /// What one rule makes of `scores`.
    fn apply_one(filter: &Filter, scores: &[Score]) -> (r: Vec<Score>)
        ensures
            r.deep_view() == step(filter@, scores.deep_view()),
    {
        match filter {
            Filter::Top(n) => keep_first(scores, *n),
            Filter::Bottom(n) => keep_last(scores, *n),
            Filter::UniquePlayers => keep_unique(scores, Field::Name),
            Filter::UniqueBinaries => keep_unique(scores, Field::Command),
            Filter::UniqueLanguages => keep_unique(scores, Field::Language),
            Filter::Player(names) => keep_allowed(scores, Field::Name, names),
            Filter::Binary(names) => keep_allowed(scores, Field::Command, names),
            Filter::Language(names) => keep_allowed(scores, Field::Language, names),
            Filter::Sort(column) => sort_scores(scores, *column),
        }
    }

    /// Applies the rules to `scores`, from the first to the last, each to
    /// what the one before it left. `scores` itself stays as it is.
    pub fn apply(&self, scores: &[Score]) -> (r: Vec<Score>)
        ensures
            r.deep_view() == run(self@, scores.deep_view()),
            self@.len() == 0 ==> r.deep_view() == scores.deep_view(),
    {
        let ghost rules = self.filters.deep_view();
        let ghost s = scores.deep_view();
        let mut results = copy_range(scores, 0, scores.len());
        assert(results.deep_view() =~= s);
        assert(rules.take(0) =~= Seq::<FilterView>::empty());
        let mut i: usize = 0;
        while i < self.filters.len()
            invariant
                i <= self.filters.len(),
                rules == self.filters.deep_view(),
                results.deep_view() == run(rules.take(i as int), s),
            decreases self.filters.len() - i,
        {
            proof {
                lemma_run_push(rules.take(i as int), rules[i as int], s);
                assert(rules.take(i + 1) =~= rules.take(i as int).push(rules[i as int]));
            }
            results = Self::apply_one(&self.filters[i], results.as_slice());
            i = i + 1;
        }
        assert(rules.take(self.filters.len() as int) =~= rules);
        results
    }
}

} // verus!
