//! Reading a person's name out of an entry of the account directory.

use vstd::prelude::*;
use vstd::std_specs::iter::IteratorSpec;
use vstd::string::*;

use crate::text::field;
use crate::text::lemma_field_step;
use crate::text::lemma_span_before_is;
use crate::text::span_before;

verus! {

/// The real name that a directory entry gives: of its fields, parted by
/// colons, the fifth, up to its first comma. An entry of fewer than five
/// fields gives none.
pub open spec fn real_name_in(entry: Seq<char>) -> Option<Seq<char>> {
    match field(entry, ':', 4) {
        Some(full) => Some(full.take(span_before(full, ',') as int)),
        None => None,
    }
}

/// The name to show for `account`: what the directory gave, or, where it gave
/// nothing, the account's own name.
pub open spec fn shown_name(account: Seq<char>, found: Option<Seq<char>>) -> Seq<char> {
    match found {
        Some(name) => name,
        None => account,
    }
}

/// Of a text that starts a field, the part before the first colon or comma.
spec fn name_part(t: Seq<char>) -> Seq<char> {
    let full = t.take(span_before(t, ':') as int);
    full.take(span_before(full, ',') as int)
}

proof fn lemma_span_within(s: Seq<char>, sep: char)
    ensures
        span_before(s, sep) <= s.len(),
    decreases s.len(),
{
    if s.len() > 0 && s[0] != sep {
        lemma_span_within(s.skip(1), sep);
    }
}

proof fn lemma_span_past(t: Seq<char>, sep: char, m: int)
    requires
        0 <= m < t.len(),
        forall|j: int| 0 <= j <= m ==> t[j] != sep,
    ensures
        span_before(t, sep) > m,
    decreases m,
{
    if m > 0 {
        lemma_span_past(t.skip(1), sep, m - 1);
    }
}

proof fn lemma_name_part(t: Seq<char>, m: int)
    requires
        0 <= m <= t.len(),
        forall|j: int| 0 <= j < m ==> t[j] != ':' && t[j] != ',',
        m == t.len() || t[m] == ':' || t[m] == ',',
    ensures
        name_part(t) == t.take(m),
{
    let k = span_before(t, ':') as int;
    lemma_span_within(t, ':');
    if m < t.len() && t[m] == ',' {
        lemma_span_past(t, ':', m);
    } else {
        lemma_span_before_is(t, ':', m);
    }
    let full = t.take(k);
    lemma_span_before_is(full, ',', m);
    assert(full.take(m) =~= t.take(m));
}

/// Reads the real name out of one entry of the account directory.
pub fn parse_real_name(entry: &str) -> (r: Option<String>)
    ensures
        match r {
            Some(name) => real_name_in(entry@) == Some(name@),
            None => real_name_in(entry@) is None,
        },
{
    broadcast use group_string_axioms;

    let total = entry.unicode_len();
    let mut chars = entry.chars();
    let mut at: usize = 0;
    let mut ahead: usize = 4;
    assert(entry@.skip(0) =~= entry@);
    while ahead > 0
        invariant
            chars.obeys_prophetic_iter_laws(),
            chars.decrease() is Some,
            total == entry@.len(),
            at <= total,
            ahead <= 4,
            chars.remaining() == entry@.skip(at as int),
            field(entry@, ':', 4) == field(entry@.skip(at as int), ':', ahead as nat),
        decreases chars.decrease()->0,
    {
        match chars.next() {
            None => {
                return None;
            },
            Some(c) => {
                proof {
                    lemma_field_step(entry@.skip(at as int), ':', ahead as nat);
                    assert(entry@.skip(at as int).skip(1) =~= entry@.skip(at + 1));
                }
                if c == ':' {
                    ahead = ahead - 1;
                }
                at = at + 1;
            },
        }
    }
    let start = at;
    let ghost tail = entry@.skip(start as int);
    loop
        invariant
            chars.obeys_prophetic_iter_laws(),
            chars.decrease() is Some,
            total == entry@.len(),
            start <= at <= total,
            tail == entry@.skip(start as int),
            chars.remaining() == entry@.skip(at as int),
            real_name_in(entry@) == Some(name_part(tail)),
            forall|j: int| 0 <= j < at - start ==> tail[j] != ':' && tail[j] != ',',
        decreases chars.decrease()->0,
    {
        let stop = match chars.next() {
            None => true,
            Some(c) => c == ':' || c == ',',
        };
        if stop {
            proof {
                lemma_name_part(tail, at - start);
                assert(tail.take(at - start) =~= entry@.subrange(start as int, at as int));
            }
            return Some(entry.substring_char(start, at).to_owned());
        }
        at = at + 1;
    }
}

} // verus!
