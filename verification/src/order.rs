//! Sorting scores by a column: ascending, scores that tie staying in the
//! order in which they came.

use vstd::prelude::*;

use crate::filter::SortColumn;
use crate::score::Score;
use crate::score::ScoreView;
use crate::text::lemma_lex_le_total;
use crate::text::lemma_lex_le_transitive;
use crate::text::lex_le;
use crate::text::text_le;

verus! {

/// Whether `a` comes before or ties with `b` in the order of `column`: texts
/// by code point, times by their bit pattern.
pub open spec fn key_le(column: SortColumn, a: ScoreView, b: ScoreView) -> bool {
    match column {
        SortColumn::PlayerName => lex_le(a.name, b.name),
        SortColumn::Binary => lex_le(a.command, b.command),
        SortColumn::Language => lex_le(a.language, b.language),
        SortColumn::Time => a.time_ns <= b.time_ns,
    }
}

/// `r` with `x` put in front of the first score that `x` comes before or
/// ties with; at the end when there is none.
pub open spec fn placed(x: ScoreView, r: Seq<ScoreView>, column: SortColumn) -> Seq<ScoreView>
    decreases r.len(),
{
    if r.len() == 0 || key_le(column, x, r[0]) {
        seq![x] + r
    } else {
        seq![r[0]] + placed(x, r.skip(1), column)
    }
}

/// `s` sorted by `column`, ascending. Each score, from the last to the first,
/// is put in front of the scores after it that it comes before or ties with,
/// so scores that tie stay in their order.
pub open spec fn sorted_by(s: Seq<ScoreView>, column: SortColumn) -> Seq<ScoreView>
    decreases s.len(),
{
    if s.len() == 0 {
        s
    } else {
        placed(s[0], sorted_by(s.skip(1), column), column)
    }
}

/// Whether each score of `r` comes before or ties with every score after it.
pub open spec fn ordered(r: Seq<ScoreView>, column: SortColumn) -> bool {
    forall|i: int, j: int|
        #![trigger r[i], r[j]]
        0 <= i < j < r.len() ==> key_le(column, r[i], r[j])
}

/// The scores that tie with `k`.
pub open spec fn tied(column: SortColumn, k: ScoreView) -> spec_fn(ScoreView) -> bool {
    |v: ScoreView| key_le(column, v, k) && key_le(column, k, v)
}

/// Of two scores, one comes before or ties with the other.
pub proof fn lemma_key_le_total(column: SortColumn, a: ScoreView, b: ScoreView)
    ensures
        key_le(column, a, b) || key_le(column, b, a),
{
    lemma_lex_le_total(a.name, b.name);
    lemma_lex_le_total(a.command, b.command);
    lemma_lex_le_total(a.language, b.language);
}

/// The order of a column is transitive.
pub proof fn lemma_key_le_transitive(column: SortColumn, a: ScoreView, b: ScoreView, c: ScoreView)
    requires
        key_le(column, a, b),
        key_le(column, b, c),
    ensures
        key_le(column, a, c),
{
    match column {
        SortColumn::PlayerName => lemma_lex_le_transitive(a.name, b.name, c.name),
        SortColumn::Binary => lemma_lex_le_transitive(a.command, b.command, c.command),
        SortColumn::Language => lemma_lex_le_transitive(a.language, b.language, c.language),
        SortColumn::Time => {},
    }
}

/// The stable merge of two runs: of the two scores in front, the one of `a`
/// goes first unless the one of `b` comes strictly before it.
spec fn merged(a: Seq<ScoreView>, b: Seq<ScoreView>, column: SortColumn) -> Seq<ScoreView>
    decreases a.len() + b.len(),
{
    if a.len() == 0 {
        b
    } else if b.len() == 0 {
        a
    } else if key_le(column, a[0], b[0]) {
        seq![a[0]] + merged(a.skip(1), b, column)
    } else {
        seq![b[0]] + merged(a, b.skip(1), column)
    }
}

proof fn lemma_placed_front(x: ScoreView, r: Seq<ScoreView>, column: SortColumn)
    ensures
        placed(x, r, column).len() == r.len() + 1,
        r.len() == 0 || key_le(column, x, r[0]) ==> placed(x, r, column)[0] == x && placed(
            x,
            r,
            column,
        ).skip(1) == r,
        r.len() > 0 && !key_le(column, x, r[0]) ==> placed(x, r, column)[0] == r[0] && placed(
            x,
            r,
            column,
        ).skip(1) == placed(x, r.skip(1), column),
    decreases r.len(),
{
    if r.len() == 0 || key_le(column, x, r[0]) {
        assert((seq![x] + r).skip(1) =~= r);
    } else {
        lemma_placed_front(x, r.skip(1), column);
        assert((seq![r[0]] + placed(x, r.skip(1), column)).skip(1) =~= placed(
            x,
            r.skip(1),
            column,
        ));
    }
}

proof fn lemma_merged_front(a: Seq<ScoreView>, b: Seq<ScoreView>, column: SortColumn)
    requires
        a.len() > 0,
        b.len() > 0,
    ensures
        key_le(column, a[0], b[0]) ==> merged(a, b, column)[0] == a[0] && merged(
            a,
            b,
            column,
        ).skip(1) == merged(a.skip(1), b, column),
        !key_le(column, a[0], b[0]) ==> merged(a, b, column)[0] == b[0] && merged(
            a,
            b,
            column,
        ).skip(1) == merged(a, b.skip(1), column),
        merged(a, b, column).len() > 0,
{
    if key_le(column, a[0], b[0]) {
        assert((seq![a[0]] + merged(a.skip(1), b, column)).skip(1) =~= merged(
            a.skip(1),
            b,
            column,
        ));
    } else {
        assert((seq![b[0]] + merged(a, b.skip(1), column)).skip(1) =~= merged(
            a,
            b.skip(1),
            column,
        ));
    }
}

/// Putting a score into the merge of two runs gives what merging gives once
/// the score is put into the first run.
proof fn lemma_placed_merged(x: ScoreView, a: Seq<ScoreView>, b: Seq<ScoreView>, column: SortColumn)
    ensures
        placed(x, merged(a, b, column), column) == merged(placed(x, a, column), b, column),
    decreases a.len() + b.len(),
{
    let pa = placed(x, a, column);
    let m = merged(a, b, column);
    lemma_placed_front(x, a, column);
    lemma_placed_front(x, m, column);
    if b.len() == 0 {
        assert(m =~= a);
    } else if a.len() == 0 {
        assert(pa =~= seq![x]);
        assert(pa.skip(1) =~= Seq::<ScoreView>::empty());
        if !key_le(column, x, b[0]) {
            lemma_placed_merged(x, a, b.skip(1), column);
        }
    } else {
        lemma_merged_front(a, b, column);
        lemma_merged_front(pa, b, column);
        if key_le(column, a[0], b[0]) {
            if key_le(column, x, a[0]) {
                lemma_key_le_transitive(column, x, a[0], b[0]);
                assert(placed(x, m, column) =~= seq![x] + m);
                assert(merged(pa, b, column) =~= seq![x] + m);
            } else {
                lemma_placed_merged(x, a.skip(1), b, column);
                assert(placed(x, m, column) =~= seq![a[0]] + placed(
                    x,
                    merged(a.skip(1), b, column),
                    column,
                ));
                assert(merged(pa, b, column) =~= seq![a[0]] + merged(
                    placed(x, a.skip(1), column),
                    b,
                    column,
                ));
            }
        } else {
            lemma_key_le_total(column, a[0], b[0]);
            if key_le(column, x, b[0]) {
                lemma_key_le_transitive(column, x, b[0], a[0]);
                assert(placed(x, m, column) =~= seq![x] + m);
                assert(merged(pa, b, column) =~= seq![x] + m);
            } else {
                lemma_placed_merged(x, a, b.skip(1), column);
                if key_le(column, pa[0], b[0]) {
                    if key_le(column, x, a[0]) {
                        assert(pa[0] == x);
                    } else {
                        assert(pa[0] == a[0]);
                    }
                    assert(false);
                }
                assert(placed(x, m, column) =~= seq![b[0]] + placed(
                    x,
                    merged(a, b.skip(1), column),
                    column,
                ));
                assert(merged(pa, b, column) =~= seq![b[0]] + merged(pa, b.skip(1), column));
            }
        }
    }
}

/// Merging two sorted sequences sorts the one after the other.
proof fn lemma_merged_sorted(a: Seq<ScoreView>, b: Seq<ScoreView>, column: SortColumn)
    ensures
        merged(sorted_by(a, column), sorted_by(b, column), column) == sorted_by(a + b, column),
    decreases a.len(),
{
    if a.len() == 0 {
        assert(a + b =~= b);
    } else {
        lemma_merged_sorted(a.skip(1), b, column);
        assert((a + b).skip(1) =~= a.skip(1) + b);
        lemma_placed_merged(
            a[0],
            sorted_by(a.skip(1), column),
            sorted_by(b, column),
            column,
        );
    }
}

/// Whether `y` comes before or ties with every score of `r`.
spec fn bounds(y: ScoreView, r: Seq<ScoreView>, column: SortColumn) -> bool {
    forall|i: int| 0 <= i < r.len() ==> key_le(column, y, #[trigger] r[i])
}

proof fn lemma_placed_bounded(y: ScoreView, x: ScoreView, r: Seq<ScoreView>, column: SortColumn)
    requires
        bounds(y, r, column),
        key_le(column, y, x),
    ensures
        bounds(y, placed(x, r, column), column),
    decreases r.len(),
{
    let p = placed(x, r, column);
    if r.len() == 0 || key_le(column, x, r[0]) {
        assert forall|i: int| 0 <= i < p.len() implies key_le(column, y, #[trigger] p[i]) by {
            if i > 0 {
                assert(p[i] == r[i - 1]);
            }
        }
    } else {
        let tail = r.skip(1);
        assert(bounds(y, tail, column)) by {
            assert forall|i: int| 0 <= i < tail.len() implies key_le(
                column,
                y,
                #[trigger] tail[i],
            ) by {
                assert(tail[i] == r[i + 1]);
            }
        }
        lemma_placed_bounded(y, x, tail, column);
        let q = placed(x, tail, column);
        assert forall|i: int| 0 <= i < p.len() implies key_le(column, y, #[trigger] p[i]) by {
            if i > 0 {
                assert(p[i] == q[i - 1]);
            } else {
                assert(p[0] == r[0]);
            }
        }
    }
}

proof fn lemma_placed_ordered(x: ScoreView, r: Seq<ScoreView>, column: SortColumn)
    requires
        ordered(r, column),
    ensures
        ordered(placed(x, r, column), column),
    decreases r.len(),
{
    let p = placed(x, r, column);
    if r.len() == 0 {
    } else if key_le(column, x, r[0]) {
        assert forall|i: int, j: int| 0 <= i < j < p.len() implies key_le(column, p[i], p[j]) by {
            assert(p[j] == r[j - 1]);
            if i == 0 {
                if j > 1 {
                    lemma_key_le_transitive(column, x, r[0], r[j - 1]);
                }
            } else {
                assert(p[i] == r[i - 1]);
            }
        }
    } else {
        let tail = r.skip(1);
        assert(ordered(tail, column)) by {
            assert forall|i: int, j: int| 0 <= i < j < tail.len() implies key_le(
                column,
                tail[i],
                tail[j],
            ) by {
                assert(tail[i] == r[i + 1] && tail[j] == r[j + 1]);
            }
        }
        assert(bounds(r[0], tail, column)) by {
            assert forall|i: int| 0 <= i < tail.len() implies key_le(
                column,
                r[0],
                #[trigger] tail[i],
            ) by {
                assert(tail[i] == r[i + 1]);
            }
        }
        lemma_key_le_total(column, x, r[0]);
        lemma_placed_ordered(x, tail, column);
        lemma_placed_bounded(r[0], x, tail, column);
        let q = placed(x, tail, column);
        assert forall|i: int, j: int| 0 <= i < j < p.len() implies key_le(column, p[i], p[j]) by {
            assert(p[j] == q[j - 1]);
            if i == 0 {
                assert(p[0] == r[0]);
            } else {
                assert(p[i] == q[i - 1]);
            }
        }
    }
}

/// What sorting gives is in order: each score comes before or ties with
/// every score after it.
pub proof fn lemma_sorted_by_ordered(s: Seq<ScoreView>, column: SortColumn)
    ensures
        ordered(sorted_by(s, column), column),
    decreases s.len(),
{
    if s.len() > 0 {
        lemma_sorted_by_ordered(s.skip(1), column);
        lemma_placed_ordered(s[0], sorted_by(s.skip(1), column), column);
    }
}

proof fn lemma_placed_permutes(x: ScoreView, r: Seq<ScoreView>, column: SortColumn)
    ensures
        placed(x, r, column).to_multiset() == r.to_multiset().insert(x),
    decreases r.len(),
{
    broadcast use vstd::multiset::group_multiset_axioms;

    if r.len() == 0 || key_le(column, x, r[0]) {
        vstd::seq_lib::lemma_multiset_commutative(seq![x], r);
        vstd::seq_lib::to_multiset_build(Seq::<ScoreView>::empty(), x);
        assert(Seq::<ScoreView>::empty().push(x) =~= seq![x]);
        assert(Seq::<ScoreView>::empty().to_multiset() =~= vstd::multiset::Multiset::empty()) by {
            Seq::<ScoreView>::empty().to_multiset_ensures();
        }
        assert(placed(x, r, column).to_multiset() =~= r.to_multiset().insert(x));
    } else {
        let tail = r.skip(1);
        lemma_placed_permutes(x, tail, column);
        vstd::seq_lib::lemma_multiset_commutative(seq![r[0]], placed(x, tail, column));
        vstd::seq_lib::lemma_multiset_commutative(seq![r[0]], tail);
        assert(seq![r[0]] + tail =~= r);
        assert(placed(x, r, column).to_multiset() =~= r.to_multiset().insert(x));
    }
}

/// Sorting neither adds a score nor drops one: what it gives holds each
/// score as often as the sequence did.
pub proof fn lemma_sorted_by_permutes(s: Seq<ScoreView>, column: SortColumn)
    ensures
        sorted_by(s, column).to_multiset() == s.to_multiset(),
        sorted_by(s, column).len() == s.len(),
    decreases s.len(),
{
    broadcast use vstd::multiset::group_multiset_axioms;

    if s.len() > 0 {
        let tail = s.skip(1);
        lemma_sorted_by_permutes(tail, column);
        lemma_placed_permutes(s[0], sorted_by(tail, column), column);
        lemma_placed_front(s[0], sorted_by(tail, column), column);
        vstd::seq_lib::lemma_multiset_commutative(seq![s[0]], tail);
        vstd::seq_lib::to_multiset_build(Seq::<ScoreView>::empty(), s[0]);
        assert(Seq::<ScoreView>::empty().push(s[0]) =~= seq![s[0]]);
        assert(Seq::<ScoreView>::empty().to_multiset() =~= vstd::multiset::Multiset::empty()) by {
            Seq::<ScoreView>::empty().to_multiset_ensures();
        }
        assert(seq![s[0]] + tail =~= s);
        assert(sorted_by(s, column).to_multiset() =~= s.to_multiset());
    }
}

proof fn lemma_filter_one(x: ScoreView, keep: spec_fn(ScoreView) -> bool)
    ensures
        seq![x].filter(keep) == if keep(x) {
            seq![x]
        } else {
            Seq::<ScoreView>::empty()
        },
{
    let none = Seq::<ScoreView>::empty();
    assert(none.filter(keep) =~= none) by {
        reveal(Seq::filter);
    }
    none.lemma_filter_push(x, keep);
    assert(none.push(x) =~= seq![x]);
}

proof fn lemma_placed_stable(x: ScoreView, r: Seq<ScoreView>, column: SortColumn, k: ScoreView)
    requires
        ordered(r, column),
    ensures
        placed(x, r, column).filter(tied(column, k)) == if tied(column, k)(x) {
            seq![x] + r.filter(tied(column, k))
        } else {
            r.filter(tied(column, k))
        },
    decreases r.len(),
{
    let same = tied(column, k);
    let one = seq![x];
    lemma_filter_one(x, same);
    if r.len() == 0 || key_le(column, x, r[0]) {
        Seq::filter_distributes_over_add(one, r, same);
        assert(Seq::<ScoreView>::empty() + r.filter(same) =~= r.filter(same));
    } else {
        let tail = r.skip(1);
        let head = seq![r[0]];
        assert(ordered(tail, column)) by {
            assert forall|i: int, j: int| 0 <= i < j < tail.len() implies key_le(
                column,
                tail[i],
                tail[j],
            ) by {
                assert(tail[i] == r[i + 1] && tail[j] == r[j + 1]);
            }
        }
        lemma_placed_stable(x, tail, column, k);
        lemma_filter_one(r[0], same);
        Seq::filter_distributes_over_add(head, placed(x, tail, column), same);
        Seq::filter_distributes_over_add(head, tail, same);
        assert(head + tail =~= r);
        if same(x) {
            if same(r[0]) {
                lemma_key_le_transitive(column, x, k, r[0]);
            }
            assert(!same(r[0]));
            assert(Seq::<ScoreView>::empty() + (seq![x] + tail.filter(same)) =~= seq![x] + (
            Seq::<ScoreView>::empty() + tail.filter(same)));
        } else {
            assert(head.filter(same) + tail.filter(same) =~= r.filter(same));
        }
    }
}

/// Sorting is stable: the scores that tie with one another come out in the
/// order in which they went in.
pub proof fn lemma_sorted_by_stable(s: Seq<ScoreView>, column: SortColumn, k: ScoreView)
    ensures
        sorted_by(s, column).filter(tied(column, k)) == s.filter(tied(column, k)),
    decreases s.len(),
{
    let same = tied(column, k);
    if s.len() == 0 {
    } else {
        let tail = s.skip(1);
        let head = seq![s[0]];
        lemma_sorted_by_stable(tail, column, k);
        lemma_sorted_by_ordered(tail, column);
        lemma_placed_stable(s[0], sorted_by(tail, column), column, k);
        lemma_filter_one(s[0], same);
        Seq::filter_distributes_over_add(head, tail, same);
        assert(head + tail =~= s);
        assert(Seq::<ScoreView>::empty() + tail.filter(same) =~= tail.filter(same));
    }
}

/// Decides [`key_le`] on two scores.
pub fn precedes(a: &Score, b: &Score, column: SortColumn) -> (r: bool)
    ensures
        r == key_le(column, a@, b@),
{
    match column {
        SortColumn::PlayerName => text_le(a.name.as_str(), b.name.as_str()),
        SortColumn::Binary => text_le(a.command.as_str(), b.command.as_str()),
        SortColumn::Language => text_le(a.language.as_str(), b.language.as_str()),
        SortColumn::Time => a.time_ns <= b.time_ns,
    }
}

/// The scores of `s` at the positions `at`, in the order of `at`.
spec fn picked(s: Seq<ScoreView>, at: Seq<usize>) -> Seq<ScoreView> {
    Seq::new(at.len(), |k: int| s[at[k] as int])
}

/// Merges two runs of positions into one.
fn merge_runs(scores: &[Score], column: SortColumn, left: &Vec<usize>, right: &Vec<usize>) -> (out:
    Vec<usize>)
    requires
        forall|k: int| 0 <= k < left.len() ==> left[k] < scores.len(),
        forall|k: int| 0 <= k < right.len() ==> right[k] < scores.len(),
    ensures
        forall|k: int| 0 <= k < out.len() ==> out[k] < scores.len(),
        picked(scores.deep_view(), out@) == merged(
            picked(scores.deep_view(), left@),
            picked(scores.deep_view(), right@),
            column,
        ),
{
    let ghost s = scores.deep_view();
    let ghost whole = merged(picked(s, left@), picked(s, right@), column);
    let mut out: Vec<usize> = Vec::new();
    let mut i: usize = 0;
    let mut j: usize = 0;
    assert(left@.skip(0) =~= left@ && right@.skip(0) =~= right@);
    assert(picked(s, out@) + whole =~= whole);
    while i < left.len() || j < right.len()
        invariant
            i <= left.len(),
            j <= right.len(),
            s == scores.deep_view(),
            forall|k: int| 0 <= k < left.len() ==> left[k] < scores.len(),
            forall|k: int| 0 <= k < right.len() ==> right[k] < scores.len(),
            forall|k: int| 0 <= k < out.len() ==> out[k] < scores.len(),
            picked(s, out@) + merged(
                picked(s, left@.skip(i as int)),
                picked(s, right@.skip(j as int)),
                column,
            ) == whole,
        decreases left.len() - i + right.len() - j,
    {
        let ghost a = picked(s, left@.skip(i as int));
        let ghost b = picked(s, right@.skip(j as int));
        let ghost done = picked(s, out@);
        let from_left = if i == left.len() {
            false
        } else if j == right.len() {
            true
        } else {
            precedes(&scores[left[i]], &scores[right[j]], column)
        };
        if from_left {
            assert(a[0] == s[left[i as int] as int]);
            assert(picked(s, left@.skip(i + 1)) =~= a.skip(1));
            proof {
                if b.len() > 0 {
                    assert(b[0] == s[right[j as int] as int]);
                    lemma_merged_front(a, b, column);
                }
                assert(merged(a, b, column) =~= seq![a[0]] + merged(a.skip(1), b, column));
            }
            out.push(left[i]);
            i = i + 1;
            assert(picked(s, out@) =~= done.push(a[0]));
            assert(done.push(a[0]) + merged(a.skip(1), b, column) =~= done + (seq![a[0]] + merged(
                a.skip(1),
                b,
                column,
            )));
        } else {
            assert(b[0] == s[right[j as int] as int]);
            assert(picked(s, right@.skip(j + 1)) =~= b.skip(1));
            proof {
                if a.len() > 0 {
                    assert(a[0] == s[left[i as int] as int]);
                    lemma_merged_front(a, b, column);
                }
                assert(merged(a, b, column) =~= seq![b[0]] + merged(a, b.skip(1), column));
            }
            out.push(right[j]);
            j = j + 1;
            assert(picked(s, out@) =~= done.push(b[0]));
            assert(done.push(b[0]) + merged(a, b.skip(1), column) =~= done + (seq![b[0]] + merged(
                a,
                b.skip(1),
                column,
            )));
        }
    }
    assert(picked(s, out@) + Seq::<ScoreView>::empty() =~= picked(s, out@));
    out
}

/// The positions from `lo` up to `hi`, in the order of their scores once
/// sorted.
fn sort_range(scores: &[Score], column: SortColumn, lo: usize, hi: usize) -> (out: Vec<usize>)
    requires
        lo <= hi <= scores.len(),
    ensures
        forall|k: int| 0 <= k < out.len() ==> out[k] < scores.len(),
        picked(scores.deep_view(), out@) == sorted_by(
            scores.deep_view().subrange(lo as int, hi as int),
            column,
        ),
    decreases hi - lo,
{
    let ghost s = scores.deep_view();
    let ghost part = s.subrange(lo as int, hi as int);
    if hi - lo < 2 {
        let mut out: Vec<usize> = Vec::new();
        if lo < hi {
            out.push(lo);
            assert(part.skip(1) =~= Seq::<ScoreView>::empty());
            assert(sorted_by(part.skip(1), column) =~= Seq::<ScoreView>::empty());
            assert(picked(s, out@) =~= sorted_by(part, column));
        } else {
            assert(picked(s, out@) =~= sorted_by(part, column));
        }
        out
    } else {
        let mid = lo + (hi - lo) / 2;
        let left = sort_range(scores, column, lo, mid);
        let right = sort_range(scores, column, mid, hi);
        proof {
            lemma_merged_sorted(s.subrange(lo as int, mid as int), s.subrange(mid as int, hi as int), column);
            assert(s.subrange(lo as int, mid as int) + s.subrange(mid as int, hi as int) =~= part);
        }
        merge_runs(scores, column, &left, &right)
    }
}

/// Sorts scores by `column`.
pub(crate) fn sort_scores(scores: &[Score], column: SortColumn) -> (r: Vec<Score>)
    ensures
        r.deep_view() == sorted_by(scores.deep_view(), column),
{
    let ghost s = scores.deep_view();
    let order = sort_range(scores, column, 0, scores.len());
    assert(s.subrange(0, scores.len() as int) =~= s);
    let mut out: Vec<Score> = Vec::new();
    let mut k: usize = 0;
    while k < order.len()
        invariant
            k <= order.len(),
            s == scores.deep_view(),
            forall|n: int| 0 <= n < order.len() ==> order[n] < scores.len(),
            out.deep_view() =~= picked(s, order@).take(k as int),
        decreases order.len() - k,
    {
        let ghost before = out.deep_view();
        out.push(scores[order[k]].clone());
        assert(out.deep_view() =~= before.push(s[order[k as int] as int]));
        k = k + 1;
    }
    assert(picked(s, order@).take(order.len() as int) =~= picked(s, order@));
    out
}

} // verus!
