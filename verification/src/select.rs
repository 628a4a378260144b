//! The rules that select scores: the limits, the allow-lists, and the rules
//! that keep one score for each value of a text.

use vstd::prelude::*;

use crate::names::holds_text;
use crate::score::Field;
use crate::score::Score;
use crate::score::ScoreView;
use crate::seqs::first_occurrences;
use crate::seqs::has_key;
use crate::seqs::lemma_first_occurrences_keys;

verus! {

/// The key by which scores count as the same: the text that `field` names.
pub open spec fn text_of(field: Field) -> spec_fn(ScoreView) -> Seq<char> {
    |v: ScoreView| v.text(field)
}

/// The scores whose text is one of `names`.
pub open spec fn listed(field: Field, names: Seq<Seq<char>>) -> spec_fn(ScoreView) -> bool {
    |v: ScoreView| names.contains(v.text(field))
}

/// The first `n` scores of `s`; all of them when `s` has fewer.
pub open spec fn first(s: Seq<ScoreView>, n: nat) -> Seq<ScoreView> {
    if n < s.len() {
        s.take(n as int)
    } else {
        s
    }
}

/// The last `n` scores of `s`, in their order; all of them when `s` has
/// fewer.
pub open spec fn last(s: Seq<ScoreView>, n: nat) -> Seq<ScoreView> {
    if n < s.len() {
        s.skip(s.len() - n)
    } else {
        s
    }
}

/// Of the scores of `s` that share the text `field`, the first, in their
/// order.
pub open spec fn unique(s: Seq<ScoreView>, field: Field) -> Seq<ScoreView> {
    first_occurrences(s, text_of(field))
}

/// The scores of `s` whose text `field` is one of `names`, in their order.
pub open spec fn allowed(s: Seq<ScoreView>, field: Field, names: Seq<Seq<char>>) -> Seq<
    ScoreView,
> {
    s.filter(listed(field, names))
}

/// Copies the scores from position `from` up to position `to`.
pub(crate) fn copy_range(scores: &[Score], from: usize, to: usize) -> (r: Vec<Score>)
    requires
        from <= to <= scores.len(),
    ensures
        r.deep_view() == scores.deep_view().subrange(from as int, to as int),
{
    let mut out: Vec<Score> = Vec::new();
    let mut i: usize = from;
    while i < to
        invariant
            from <= i <= to <= scores.len(),
            out.deep_view() =~= scores.deep_view().subrange(from as int, i as int),
        decreases to - i,
    {
        let ghost before = out.deep_view();
        out.push(scores[i].clone());
        assert(out.deep_view() =~= before.push(scores.deep_view()[i as int]));
        i = i + 1;
    }
    out
}

/// Keeps the first `n` scores.
pub(crate) fn keep_first(scores: &[Score], n: usize) -> (r: Vec<Score>)
    ensures
        r.deep_view() == first(scores.deep_view(), n as nat),
{
    let all = scores.len();
    if n < all {
        let r = copy_range(scores, 0, n);
        assert(r.deep_view() =~= scores.deep_view().take(n as int));
        r
    } else {
        let r = copy_range(scores, 0, all);
        assert(r.deep_view() =~= scores.deep_view());
        r
    }
}

/// Keeps the last `n` scores.
pub(crate) fn keep_last(scores: &[Score], n: usize) -> (r: Vec<Score>)
    ensures
        r.deep_view() == last(scores.deep_view(), n as nat),
{
    let all = scores.len();
    if n < all {
        let r = copy_range(scores, all - n, all);
        assert(r.deep_view() =~= scores.deep_view().skip(all - n));
        r
    } else {
        let r = copy_range(scores, 0, all);
        assert(r.deep_view() =~= scores.deep_view());
        r
    }
}

/// Whether one of `scores` has `text` for its text `field`.
fn holds_key(scores: &Vec<Score>, field: Field, text: &String) -> (r: bool)
    ensures
        r == has_key(scores.deep_view(), text_of(field), text@),
{
    let mut i: usize = 0;
    while i < scores.len()
        invariant
            i <= scores.len(),
            forall|j: int| 0 <= j < i ==> scores.deep_view()[j].text(field) != text@,
        decreases scores.len() - i,
    {
        if *scores[i].text(field) == *text {
            assert(text_of(field)(scores.deep_view()[i as int]) == text@);
            return true;
        }
        i = i + 1;
    }
    assert(!has_key(scores.deep_view(), text_of(field), text@)) by {
        if has_key(scores.deep_view(), text_of(field), text@) {
            let j = choose|j: int|
                0 <= j < scores.deep_view().len() && text_of(field)(
                    #[trigger] scores.deep_view()[j],
                ) == text@;
            assert(scores.deep_view()[j].text(field) == text@);
        }
    }
    false
}

/// Keeps the first score for each value of the text `field`.
pub(crate) fn keep_unique(scores: &[Score], field: Field) -> (r: Vec<Score>)
    ensures
        r.deep_view() == unique(scores.deep_view(), field),
{
    let ghost s = scores.deep_view();
    let mut out: Vec<Score> = Vec::new();
    assert(out.deep_view() =~= unique(s.take(0), field));
    let mut i: usize = 0;
    while i < scores.len()
        invariant
            i <= scores.len(),
            s == scores.deep_view(),
            out.deep_view() == unique(s.take(i as int), field),
        decreases scores.len() - i,
    {
        proof {
            assert(s.take(i + 1).drop_last() =~= s.take(i as int));
            lemma_first_occurrences_keys(s.take(i as int), text_of(field), s[i as int].text(field));
        }
        let ghost before = out.deep_view();
        if !holds_key(&out, field, scores[i].text(field)) {
            out.push(scores[i].clone());
            assert(out.deep_view() =~= before.push(s[i as int]));
        }
        i = i + 1;
    }
    assert(s.take(scores.len() as int) =~= s);
    out
}

/// Keeps the scores whose text `field` is one of `names`.
pub(crate) fn keep_allowed(scores: &[Score], field: Field, names: &Vec<String>) -> (r: Vec<
    Score,
>)
    ensures
        r.deep_view() == allowed(scores.deep_view(), field, names.deep_view()),
{
    let ghost s = scores.deep_view();
    let ghost keep = listed(field, names.deep_view());
    let mut out: Vec<Score> = Vec::new();
    assert(out.deep_view() =~= s.take(0).filter(keep)) by {
        reveal(Seq::filter);
    }
    let mut i: usize = 0;
    while i < scores.len()
        invariant
            i <= scores.len(),
            s == scores.deep_view(),
            keep == listed(field, names.deep_view()),
            out.deep_view() == s.take(i as int).filter(keep),
        decreases scores.len() - i,
    {
        proof {
            assert(s.take(i + 1) =~= s.take(i as int).push(s[i as int]));
            s.take(i as int).lemma_filter_push(s[i as int], keep);
        }
        let ghost before = out.deep_view();
        if holds_text(names, scores[i].text(field)) {
            out.push(scores[i].clone());
            assert(out.deep_view() =~= before.push(s[i as int]));
        }
        i = i + 1;
    }
    assert(s.take(scores.len() as int) =~= s);
    out
}

} // verus!
