//! Lists of texts: membership, equality, and the union that an allow-list
//! grows by.

use vstd::prelude::*;
use vstd::string::*;

use crate::seqs::first_occurrences;
use crate::seqs::has_key;
use crate::seqs::lemma_first_occurrences_keys;

verus! {

/// The key of a text: the text itself.
pub open spec fn itself() -> spec_fn(Seq<char>) -> Seq<char> {
    |t: Seq<char>| t
}

/// `texts` without repetitions: of equal texts the first stays.
pub open spec fn distinct(texts: Seq<Seq<char>>) -> Seq<Seq<char>> {
    first_occurrences(texts, itself())
}

/// The union of two lists: the texts of `new`, then those of `old`, without
/// repetitions.
pub open spec fn union(new: Seq<Seq<char>>, old: Seq<Seq<char>>) -> Seq<Seq<char>> {
    distinct(new + old)
}

/// A text is among the distinct ones of `texts` exactly if it is in `texts`.
pub proof fn lemma_distinct_contains(texts: Seq<Seq<char>>, t: Seq<char>)
    ensures
        distinct(texts).contains(t) == texts.contains(t),
{
    lemma_first_occurrences_keys(texts, itself(), t);
    let d = distinct(texts);
    if has_key(d, itself(), t) {
        let i = choose|i: int| 0 <= i < d.len() && itself()(#[trigger] d[i]) == t;
        assert(d[i] == t);
    }
    if d.contains(t) {
        let i = choose|i: int| 0 <= i < d.len() && d[i] == t;
        assert(itself()(d[i]) == t);
    }
    if has_key(texts, itself(), t) {
        let i = choose|i: int| 0 <= i < texts.len() && itself()(#[trigger] texts[i]) == t;
        assert(texts[i] == t);
    }
    if texts.contains(t) {
        let i = choose|i: int| 0 <= i < texts.len() && texts[i] == t;
        assert(itself()(texts[i]) == t);
    }
}

/// Taking one more text of `texts` adds it to the distinct ones unless it is
/// among them already.
pub proof fn lemma_distinct_step(texts: Seq<Seq<char>>, i: int)
    requires
        0 <= i < texts.len(),
    ensures
        distinct(texts.take(i + 1)) == if distinct(texts.take(i)).contains(texts[i]) {
            distinct(texts.take(i))
        } else {
            distinct(texts.take(i)).push(texts[i])
        },
{
    let now = texts.take(i + 1);
    let before = texts.take(i);
    assert(now.drop_last() =~= before);
    assert(now.last() == texts[i]);
    lemma_first_occurrences_keys(before, itself(), texts[i]);
    lemma_distinct_contains(before, texts[i]);
    if has_key(before, itself(), texts[i]) {
        let j = choose|j: int| 0 <= j < before.len() && itself()(#[trigger] before[j]) == texts[i];
        assert(before[j] == texts[i]);
    }
    if before.contains(texts[i]) {
        let j = choose|j: int| 0 <= j < before.len() && before[j] == texts[i];
        assert(itself()(before[j]) == texts[i]);
    }
}

/// Whether `text` is one of `list`.
pub fn holds_text(list: &Vec<String>, text: &String) -> (r: bool)
    ensures
        r == list.deep_view().contains(text@),
{
    let mut i: usize = 0;
    while i < list.len()
        invariant
            i <= list.len(),
            forall|j: int| 0 <= j < i ==> list.deep_view()[j] != text@,
        decreases list.len() - i,
    {
        if list[i] == *text {
            assert(list.deep_view()[i as int] == text@);
            return true;
        }
        i = i + 1;
    }
    false
}

/// Whether two lists hold the same texts in the same order.
pub fn same_texts(a: &Vec<String>, b: &Vec<String>) -> (r: bool)
    ensures
        r == (a.deep_view() == b.deep_view()),
{
    if a.len() != b.len() {
        assert(a.deep_view().len() != b.deep_view().len());
        return false;
    }
    let mut i: usize = 0;
    while i < a.len()
        invariant
            i <= a.len(),
            a.len() == b.len(),
            forall|j: int| 0 <= j < i ==> a.deep_view()[j] == b.deep_view()[j],
        decreases a.len() - i,
    {
        if a[i] != b[i] {
            assert(a.deep_view()[i as int] != b.deep_view()[i as int]);
            return false;
        }
        i = i + 1;
    }
    assert(a.deep_view() =~= b.deep_view());
    true
}

/// A copy of `list`.
pub fn copy_texts(list: &Vec<String>) -> (r: Vec<String>)
    ensures
        r.deep_view() == list.deep_view(),
{
    let r = list.clone();
    assert(r.deep_view() =~= list.deep_view());
    r
}

/// The union of two lists: the texts of `new`, then those of `old`, each text
/// once, where it first stood.
pub fn union_texts(new: &Vec<String>, old: &Vec<String>) -> (r: Vec<String>)
    ensures
        r.deep_view() == union(new.deep_view(), old.deep_view()),
{
    let ghost all = new.deep_view() + old.deep_view();
    let mut out: Vec<String> = Vec::new();
    assert(out.deep_view() =~= distinct(all.take(0)));
    let mut i: usize = 0;
    while i < new.len()
        invariant
            i <= new.len(),
            all == new.deep_view() + old.deep_view(),
            out.deep_view() == distinct(all.take(i as int)),
        decreases new.len() - i,
    {
        proof {
            lemma_distinct_step(all, i as int);
        }
        if !holds_text(&out, &new[i]) {
            out.push(new[i].clone());
            assert(out.deep_view() =~= distinct(all.take(i as int)).push(all[i as int]));
        }
        i = i + 1;
    }
    let mut k: usize = 0;
    while k < old.len()
        invariant
            k <= old.len(),
            all == new.deep_view() + old.deep_view(),
            out.deep_view() == distinct(all.take(new.len() + k)),
        decreases old.len() - k,
    {
        proof {
            lemma_distinct_step(all, new.len() + k);
        }
        if !holds_text(&out, &old[k]) {
            out.push(old[k].clone());
            assert(out.deep_view() =~= distinct(all.take(new.len() + k)).push(
                all[new.len() + k],
            ));
        }
        k = k + 1;
    }
    assert(all.take(new.len() + old.len()) =~= all);
    out
}

} // verus!
