//! Keeping, of the elements of a sequence that share a key, the first.

use vstd::prelude::*;

verus! {

/// Whether some element of `s` has the key `k`.
pub open spec fn has_key<A, K>(s: Seq<A>, key: spec_fn(A) -> K, k: K) -> bool {
    exists|i: int| 0 <= i < s.len() && key(#[trigger] s[i]) == k
}

/// `s` without every element whose key an earlier element has: of the
/// elements that share a key the first stays, and what stays keeps its order.
pub open spec fn first_occurrences<A, K>(s: Seq<A>, key: spec_fn(A) -> K) -> Seq<A>
    decreases s.len(),
{
    if s.len() == 0 {
        s
    } else {
        let kept = first_occurrences(s.drop_last(), key);
        if has_key(s.drop_last(), key, key(s.last())) {
            kept
        } else {
            kept.push(s.last())
        }
    }
}

/// What stays has the keys that the whole sequence has.
pub proof fn lemma_first_occurrences_keys<A, K>(s: Seq<A>, key: spec_fn(A) -> K, k: K)
    ensures
        has_key(first_occurrences(s, key), key, k) == has_key(s, key, k),
    decreases s.len(),
{
    if s.len() > 0 {
        let before = s.drop_last();
        let kept = first_occurrences(before, key);
        lemma_first_occurrences_keys(before, key, k);
        lemma_first_occurrences_keys(before, key, key(s.last()));
        if has_key(s, key, k) {
            let i = choose|i: int| 0 <= i < s.len() && key(#[trigger] s[i]) == k;
            if i < before.len() {
                assert(key(before[i]) == k);
            }
        }
        if has_key(before, key, k) {
            let i = choose|i: int| 0 <= i < before.len() && key(#[trigger] before[i]) == k;
            assert(key(s[i]) == k);
        }
        if !has_key(before, key, key(s.last())) {
            let all = kept.push(s.last());
            if has_key(kept, key, k) {
                let i = choose|i: int| 0 <= i < kept.len() && key(#[trigger] kept[i]) == k;
                assert(key(all[i]) == k);
            }
            if has_key(all, key, k) {
                let i = choose|i: int| 0 <= i < all.len() && key(#[trigger] all[i]) == k;
                if i < kept.len() {
                    assert(key(kept[i]) == k);
                }
            }
            if key(s.last()) == k {
                assert(key(all[kept.len() as int]) == k);
                assert(key(s[s.len() - 1]) == k);
            }
        }
    }
}

/// Of what stays, no two elements share a key.
pub proof fn lemma_first_occurrences_distinct<A, K>(s: Seq<A>, key: spec_fn(A) -> K)
    ensures
        forall|i: int, j: int|
            #![trigger first_occurrences(s, key)[i], first_occurrences(s, key)[j]]
            0 <= i < j < first_occurrences(s, key).len() ==> key(first_occurrences(s, key)[i])
                != key(first_occurrences(s, key)[j]),
    decreases s.len(),
{
    if s.len() > 0 {
        let before = s.drop_last();
        let kept = first_occurrences(before, key);
        lemma_first_occurrences_distinct(before, key);
        lemma_first_occurrences_keys(before, key, key(s.last()));
        if !has_key(before, key, key(s.last())) {
            let all = kept.push(s.last());
            assert forall|i: int, j: int| 0 <= i < j < all.len() implies key(all[i]) != key(
                all[j],
            ) by {
                if j == kept.len() {
                    assert(all[i] == kept[i]);
                } else {
                    assert(all[i] == kept[i] && all[j] == kept[j]);
                }
            }
        }
    }
}

/// What stays is as long as the sequence at most.
pub proof fn lemma_first_occurrences_len<A, K>(s: Seq<A>, key: spec_fn(A) -> K)
    ensures
        first_occurrences(s, key).len() <= s.len(),
    decreases s.len(),
{
    if s.len() > 0 {
        lemma_first_occurrences_len(s.drop_last(), key);
    }
}

} // verus!
