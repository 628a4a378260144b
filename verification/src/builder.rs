//! Staging the rules of a pipeline.

use vstd::prelude::*;

use crate::collection::Collection;
use crate::filter::Filter;
use crate::filter::FilterView;
use crate::filter::Slot;
use crate::score::Field;
use crate::seqs::first_occurrences;
use crate::seqs::has_key;
use crate::names::distinct;
use crate::names::itself;
use crate::names::union;
use crate::names::union_texts;

verus! {

/// The rules that occupy another slot than `slot`.
pub open spec fn outside(slot: Slot) -> spec_fn(FilterView) -> bool {
    |g: FilterView| g.slot() != slot
}

/// The rules that do not count as the same rule as `f`.
pub open spec fn unlike(f: FilterView) -> spec_fn(FilterView) -> bool {
    |g: FilterView| !g.same_rule(f)
}

/// Whether `list` holds one rule of each slot at most.
pub open spec fn canonical(list: Seq<FilterView>) -> bool {
    forall|i: int, j: int|
        #![trigger list[i], list[j]]
        0 <= i < j < list.len() ==> list[i].slot() != list[j].slot()
}

/// The first rule of `list` that occupies `slot`.
pub open spec fn held(list: Seq<FilterView>, slot: Slot) -> Option<FilterView>
    decreases list.len(),
{
    if list.len() == 0 {
        None
    } else if list[0].slot() == slot {
        Some(list[0])
    } else {
        held(list.skip(1), slot)
    }
}

/// The rule that enters `list` when `f` is added: `f` itself, unless `f` is
/// an allow-list and `list` holds one on the same text. Then it is the
/// allow-list of the union: the texts of `f`, then those already listed, each
/// once.
pub open spec fn entering(list: Seq<FilterView>, f: FilterView) -> FilterView {
    match (f, held(list, f.slot())) {
        (FilterView::Allow(field, new), Some(FilterView::Allow(_, old))) => FilterView::Allow(
            field,
            union(new, old),
        ),
        _ => f,
    }
}

/// `list` after `f` was added: the rules of the slot of `f` leave, and the
/// rule that enters stands last.
pub open spec fn added(list: Seq<FilterView>, f: FilterView) -> Seq<FilterView> {
    list.filter(outside(f.slot())).push(entering(list, f))
}

/// `list` after `f` was removed: every rule that counts as the same rule as
/// `f` leaves.
pub open spec fn removed(list: Seq<FilterView>, f: FilterView) -> Seq<FilterView> {
    list.filter(unlike(f))
}

/// What is left of a list with one rule of each slot at most has one rule of
/// each slot at most.
pub proof fn lemma_filter_canonical(list: Seq<FilterView>, keep: spec_fn(FilterView) -> bool)
    requires
        canonical(list),
    ensures
        canonical(list.filter(keep)),
    decreases list.len(),
{
    reveal(Seq::filter);
    if list.len() > 0 {
        let before = list.drop_last();
        let last = list.last();
        assert(canonical(before)) by {
            assert forall|i: int, j: int| 0 <= i < j < before.len() implies before[i].slot()
                != before[j].slot() by {
                assert(before[i] == list[i] && before[j] == list[j]);
            }
        }
        lemma_filter_canonical(before, keep);
        let kept = before.filter(keep);
        if keep(last) {
            let all = kept.push(last);
            assert forall|i: int, j: int| 0 <= i < j < all.len() implies all[i].slot()
                != all[j].slot() by {
                if j == kept.len() {
                    assert(kept.contains(kept[i]));
                    before.lemma_filter_contains_rev(keep, kept[i]);
                    let k = choose|k: int| 0 <= k < before.len() && before[k] == kept[i];
                    assert(list[k] == kept[i] && list[list.len() - 1] == last);
                } else {
                    assert(all[i] == kept[i] && all[j] == kept[j]);
                }
            }
        }
    }
}

/// Adding a rule to a list with one rule of each slot at most leaves such a
/// list.
pub proof fn lemma_added_canonical(list: Seq<FilterView>, f: FilterView)
    requires
        canonical(list),
    ensures
        canonical(added(list, f)),
{
    let rest = list.filter(outside(f.slot()));
    lemma_filter_canonical(list, outside(f.slot()));
    let all = added(list, f);
    assert forall|i: int, j: int| 0 <= i < j < all.len() implies all[i].slot()
        != all[j].slot() by {
        if j == rest.len() {
            list.lemma_filter_pred(outside(f.slot()), i);
            assert(all[i] == rest[i]);
        } else {
            assert(all[i] == rest[i] && all[j] == rest[j]);
        }
    }
}

/// After a rule was added, the rule that entered stands last, it occupies
/// the slot of the rule that was added, and no rule before it occupies that
/// slot.
pub proof fn lemma_added_once(list: Seq<FilterView>, f: FilterView)
    ensures
        added(list, f).len() >= 1,
        added(list, f).last() == entering(list, f),
        entering(list, f).slot() == f.slot(),
        forall|i: int|
            0 <= i < added(list, f).len() - 1 ==> (#[trigger] added(list, f)[i]).slot() != f.slot(),
{
    let rest = list.filter(outside(f.slot()));
    assert forall|i: int| 0 <= i < rest.len() implies (#[trigger] added(list, f)[i]).slot()
        != f.slot() by {
        list.lemma_filter_pred(outside(f.slot()), i);
        assert(added(list, f)[i] == rest[i]);
    }
}

/// What a list holds in a slot occupies that slot.
pub proof fn lemma_held_slot(list: Seq<FilterView>, slot: Slot)
    ensures
        held(list, slot) matches Some(g) ==> g.slot() == slot && list.contains(g),
        held(list, slot) is None ==> forall|i: int|
            0 <= i < list.len() ==> (#[trigger] list[i]).slot() != slot,
    decreases list.len(),
{
    if list.len() > 0 {
        if list[0].slot() == slot {
            assert(list.contains(list[0]));
        } else {
            lemma_held_slot(list.skip(1), slot);
            match held(list, slot) {
                Some(g) => {
                    let i = choose|i: int| 0 <= i < list.skip(1).len() && list.skip(1)[i] == g;
                    assert(list[i + 1] == g);
                },
                None => {
                    assert forall|i: int| 0 <= i < list.len() implies (#[trigger] list[i]).slot()
                        != slot by {
                        if i > 0 {
                            assert(list.skip(1)[i - 1] == list[i]);
                        }
                    }
                },
            }
        }
    }
}

/// A list whose last rule alone occupies a slot holds that rule in the slot.
pub proof fn lemma_held_last(list: Seq<FilterView>, slot: Slot)
    requires
        list.len() >= 1,
        list.last().slot() == slot,
        forall|i: int| 0 <= i < list.len() - 1 ==> (#[trigger] list[i]).slot() != slot,
    ensures
        held(list, slot) == Some(list.last()),
    decreases list.len(),
{
    if list.len() > 1 {
        let tail = list.skip(1);
        assert forall|i: int| 0 <= i < tail.len() - 1 implies (#[trigger] tail[i]).slot()
            != slot by {
            assert(tail[i] == list[i + 1]);
        }
        assert(tail.last() == list.last());
        lemma_held_last(tail, slot);
    }
}

/// Of one text, or of two that differ, each is distinct.
pub proof fn lemma_distinct_pair(b: Seq<char>, a: Seq<char>)
    ensures
        distinct(seq![b]) == seq![b],
        distinct(seq![b, a]) == if a == b {
            seq![b]
        } else {
            seq![b, a]
        },
{
    let one = seq![b];
    let two = seq![b, a];
    let none = Seq::<Seq<char>>::empty();
    assert(one.drop_last() =~= none);
    assert(first_occurrences(none, itself()) =~= none);
    assert(!has_key(none, itself(), b));
    assert(first_occurrences(one, itself()) =~= seq![b]);
    assert(two.drop_last() =~= one);
    if a == b {
        assert(itself()(one[0]) == a);
        assert(has_key(one, itself(), a));
    } else {
        assert(!has_key(one, itself(), a)) by {
            if has_key(one, itself(), a) {
                let i = choose|i: int| 0 <= i < one.len() && itself()(#[trigger] one[i]) == a;
                assert(one[i] == b);
            }
        }
        assert(seq![b].push(a) =~= seq![b, a]);
    }
}

/// A builder to which an allow-list of the one text `a` and then an
/// allow-list of the one text `b` was added, both on the same text of a
/// score, holds one allow-list on that text, never two. It stands last and
/// lists `b`, then `a`, then the texts that the builder listed before, each
/// once. Where the builder listed none before, it lists `b` and `a`, or `b`
/// alone where the two are the same.
pub proof fn lemma_allow_lists_merge(list: Seq<FilterView>, field: Field, a: Seq<char>, b: Seq<char>)
    ensures
        ({
            let once = added(list, FilterView::Allow(field, seq![a]));
            let twice = added(once, FilterView::Allow(field, seq![b]));
            let before = match held(list, Slot::Allow(field)) {
                Some(FilterView::Allow(_, old)) => union(seq![a], old),
                _ => seq![a],
            };
            &&& twice.len() >= 1
            &&& twice.last() == FilterView::Allow(field, union(seq![b], before))
            &&& forall|i: int|
                0 <= i < twice.len() - 1 ==> (#[trigger] twice[i]).slot() != Slot::Allow(field)
            &&& held(list, Slot::Allow(field)) is None ==> twice.last() == FilterView::Allow(
                field,
                if a == b {
                    seq![b]
                } else {
                    seq![b, a]
                },
            )
        }),
{
    let slot = Slot::Allow(field);
    let first = FilterView::Allow(field, seq![a]);
    let second = FilterView::Allow(field, seq![b]);
    let once = added(list, first);
    let twice = added(once, second);
    lemma_added_once(list, first);
    lemma_added_once(once, second);
    lemma_held_slot(list, slot);
    lemma_held_last(once, slot);
    lemma_distinct_pair(b, a);
    assert(seq![b] + seq![a] =~= seq![b, a]);
}

/// A builder to which a limit from the front and then a limit from the back
/// was added holds one limit, the one from the back, and holds it last.
pub proof fn lemma_limit_replaced(list: Seq<FilterView>, n: nat, m: nat)
    ensures
        ({
            let twice = added(added(list, FilterView::Top(n)), FilterView::Bottom(m));
            &&& twice.len() >= 1
            &&& twice.last() == FilterView::Bottom(m)
            &&& forall|i: int| 0 <= i < twice.len() - 1 ==> (#[trigger] twice[i]).slot() != Slot::Limit
        }),
{
    lemma_added_once(added(list, FilterView::Top(n)), FilterView::Bottom(m));
}

/// Stages the rules of a pipeline. It holds one rule of each slot at most.
#[derive(Debug)]
pub struct Builder {
    filters: Vec<Filter>,
}

impl View for Builder {
    type V = Seq<FilterView>;

    closed spec fn view(&self) -> Seq<FilterView> {
        self.filters.deep_view()
    }
}

impl Clone for Builder {
    fn clone(&self) -> (r: Self)
        ensures
            r@ == self@,
    {
        proof {
            use_type_invariant(self);
        }
        let filters = self.filters.clone();
        assert(filters.deep_view() =~= self.filters.deep_view());
        Builder { filters }
    }
}

impl Default for Builder {
    fn default() -> (r: Self)
        ensures
            r@ == Seq::<FilterView>::empty(),
    {
        Builder::new()
    }
}

impl Builder {
    #[verifier::type_invariant]
    spec fn well_formed(self) -> bool {
        canonical(self.filters.deep_view())
    }

    /// A builder that stages nothing.
    pub fn new() -> (r: Self)
        ensures
            r@ == Seq::<FilterView>::empty(),
    {
        let filters: Vec<Filter> = Vec::new();
        assert(filters.deep_view() =~= Seq::<FilterView>::empty());
        Builder { filters }
    }

    /// The staged rules, in their order.
    pub fn filters(&self) -> (r: &Vec<Filter>)
        ensures
            r.deep_view() == self@,
            canonical(self@),
    {
        proof {
            use_type_invariant(self);
        }
        &self.filters
    }

    /// The pipeline of the staged rules, in their order.
    pub fn build(self) -> (r: Collection)
        ensures
            r@ == self@,
            canonical(r@),
    {
        proof {
            use_type_invariant(&self);
        }
        Collection::of(self.filters)
    }

    /// The rule that enters when `filter` is added to `filters`.
    fn merged(filters: &Vec<Filter>, filter: Filter) -> (r: Filter)
        ensures
            r@ == entering(filters.deep_view(), filter@),
    {
        let slot = filter.slot();
        let ghost list = filters.deep_view();
        let mut i: usize = 0;
        assert(list.skip(0) =~= list);
        while i < filters.len()
            invariant
                i <= filters.len(),
                list == filters.deep_view(),
                slot == filter@.slot(),
                held(list, slot) == held(list.skip(i as int), slot),
            decreases filters.len() - i,
        {
            assert(list.skip(i as int)[0] == filters[i as int]@);
            if filters[i].slot() == slot {
                return match filter.names() {
                    Some(new) => match filters[i].names() {
                        Some(old) => {
                            match slot {
                                Slot::Allow(field) => Filter::allow(field, union_texts(new, old)),
                                _ => filter,
                            }
                        },
                        None => filter,
                    },
                    None => filter,
                };
            }
            assert(list.skip(i as int).skip(1) =~= list.skip(i + 1));
            i = i + 1;
        }
        filter
    }

    /// Takes out of `filters` the rules that count as the same rule as
    /// `probe`, if `exact`, and else all the rules of its slot.
    fn take_out(filters: &mut Vec<Filter>, probe: &Filter, exact: bool)
        ensures
            final(filters).deep_view() == old(filters).deep_view().filter(
                if exact {
                    unlike(probe@)
                } else {
                    outside(probe@.slot())
                },
            ),
    {
        let ghost list = filters.deep_view();
        let ghost keep = if exact {
            unlike(probe@)
        } else {
            outside(probe@.slot())
        };
        let ghost mut seen: int = 0;
        let mut i: usize = 0;
        assert(list.take(0).filter(keep) =~= filters.deep_view().take(0)) by {
            reveal(Seq::filter);
        }
        assert(filters.deep_view().skip(0) =~= list.skip(0));
        while i < filters.len()
            invariant
                i <= filters.len(),
                keep == if exact {
                    unlike(probe@)
                } else {
                    outside(probe@.slot())
                },
                0 <= seen <= list.len(),
                filters.len() - i == list.len() - seen,
                filters.deep_view().take(i as int) == list.take(seen).filter(keep),
                filters.deep_view().skip(i as int) == list.skip(seen),
            decreases filters.len() - i,
        {
            let ghost before = filters.deep_view();
            assert(before[i as int] == before.skip(i as int)[0]);
            assert(list.take(seen + 1) =~= list.take(seen).push(list[seen]));
            proof {
                list.take(seen).lemma_filter_push(list[seen], keep);
            }
            let leaves = if exact {
                filters[i] == *probe
            } else {
                filters[i].slot() == probe.slot()
            };
            assert(leaves == !keep(list[seen]));
            if leaves {
                filters.remove(i);
                assert(filters.deep_view() =~= before.remove(i as int));
                assert(filters.deep_view().take(i as int) =~= before.take(i as int));
            } else {
                assert(before.take(i + 1) =~= before.take(i as int).push(before[i as int]));
                i = i + 1;
            }
            assert(filters.deep_view().skip(i as int) =~= list.skip(seen + 1)) by {
                assert forall|k: int| 0 <= k < list.len() - seen - 1 implies filters.deep_view().skip(
                    i as int,
                )[k] == list.skip(seen + 1)[k] by {
                    assert(before.skip(before.len() - (list.len() - seen))[k + 1] == list.skip(
                        seen,
                    )[k + 1]);
                }
            }
            proof {
                seen = seen + 1;
            }
        }
        assert(list.take(seen) =~= list);
        assert(filters.deep_view().take(i as int) =~= filters.deep_view());
    }

    /// Adds `filter` to `filters`.
    fn push(filters: &mut Vec<Filter>, filter: Filter)
        ensures
            final(filters).deep_view() == added(old(filters).deep_view(), filter@),
    {
        let entry = Self::merged(filters, filter);
        Self::take_out(filters, &entry, false);
        let ghost rest = filters.deep_view();
        filters.push(entry);
        assert(filters.deep_view() =~= rest.push(entry@));
    }

    /// This builder with `filter` added.
    pub fn add_filter(self, filter: Filter) -> (r: Self)
        ensures
            r@ == added(self@, filter@),
            canonical(r@),
    {
        proof {
            use_type_invariant(&self);
            lemma_added_canonical(self.filters.deep_view(), filter@);
        }
        let mut filters = self.filters;
        Self::push(&mut filters, filter);
        Builder { filters }
    }

    /// Adds `filter`.
    pub fn append(&mut self, filter: Filter)
        ensures
            final(self)@ == added(old(self)@, filter@),
            canonical(final(self)@),
    {
        proof {
            use_type_invariant(&*self);
            lemma_added_canonical(self.filters.deep_view(), filter@);
        }
        let mut filters: Vec<Filter> = Vec::new();
        assert(canonical(filters.deep_view()));
        core::mem::swap(&mut self.filters, &mut filters);
        Self::push(&mut filters, filter);
        self.filters = filters;
    }

    /// This builder without the rules that count as the same rule as
    /// `filter`.
    pub fn remove_filter(self, filter: Filter) -> (r: Self)
        ensures
            r@ == removed(self@, filter@),
            canonical(r@),
    {
        proof {
            use_type_invariant(&self);
            lemma_filter_canonical(self.filters.deep_view(), unlike(filter@));
        }
        let mut filters = self.filters;
        Self::take_out(&mut filters, &filter, true);
        Builder { filters }
    }

    /// This builder with nothing staged.
    pub fn clear(self) -> (r: Self)
        ensures
            r@ == Seq::<FilterView>::empty(),
    {
        let mut filters = self.filters;
        filters.clear();
        assert(filters.deep_view() =~= Seq::<FilterView>::empty());
        Builder { filters }
    }
}

} // verus!
