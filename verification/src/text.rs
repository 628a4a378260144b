//! Texts as sequences of characters: their order, a reading that ignores the
//! case of ASCII letters, decimal numerals, and separated fields.

use vstd::prelude::*;
use vstd::std_specs::iter::IteratorSpec;
use vstd::string::*;

verus! {

/// Whether `a` comes before or with `b` when texts are ordered by code point,
/// one character at a time, a proper prefix coming first.
pub open spec fn lex_le(a: Seq<char>, b: Seq<char>) -> bool
    decreases a.len(),
{
    if a.len() == 0 {
        true
    } else if b.len() == 0 {
        false
    } else if a[0] == b[0] {
        lex_le(a.skip(1), b.skip(1))
    } else {
        a[0] < b[0]
    }
}

/// Of two texts, one comes before or with the other.
pub proof fn lemma_lex_le_total(a: Seq<char>, b: Seq<char>)
    ensures
        lex_le(a, b) || lex_le(b, a),
    decreases a.len(),
{
    if a.len() > 0 && b.len() > 0 && a[0] == b[0] {
        lemma_lex_le_total(a.skip(1), b.skip(1));
    }
}

/// The order of texts is transitive.
pub proof fn lemma_lex_le_transitive(a: Seq<char>, b: Seq<char>, c: Seq<char>)
    requires
        lex_le(a, b),
        lex_le(b, c),
    ensures
        lex_le(a, c),
    decreases a.len(),
{
    if a.len() > 0 && b.len() > 0 && c.len() > 0 && a[0] == b[0] && b[0] == c[0] {
        lemma_lex_le_transitive(a.skip(1), b.skip(1), c.skip(1));
    }
}

/// Two texts that each come before or with the other are the same text.
pub proof fn lemma_lex_le_antisymmetric(a: Seq<char>, b: Seq<char>)
    requires
        lex_le(a, b),
        lex_le(b, a),
    ensures
        a == b,
    decreases a.len(),
{
    if a.len() > 0 && b.len() > 0 {
        lemma_lex_le_antisymmetric(a.skip(1), b.skip(1));
        assert(a =~= seq![a[0]] + a.skip(1));
        assert(b =~= seq![b[0]] + b.skip(1));
    } else {
        assert(a =~= b);
    }
}

/// Decides [`lex_le`] on two strings.
pub fn text_le(a: &str, b: &str) -> (r: bool)
    ensures
        r == lex_le(a@, b@),
{
    broadcast use group_string_axioms;

    let mut left = a.chars();
    let mut right = b.chars();
    loop
        invariant
            left.obeys_prophetic_iter_laws(),
            right.obeys_prophetic_iter_laws(),
            left.decrease() is Some,
            lex_le(a@, b@) == lex_le(left.remaining(), right.remaining()),
        decreases left.decrease()->0,
    {
        let x = left.next();
        let y = right.next();
        match x {
            None => {
                return true;
            },
            Some(c) => {
                match y {
                    None => {
                        return false;
                    },
                    Some(d) => {
                        if c != d {
                            return c < d;
                        }
                    },
                }
            },
        }
    }
}

/// The code point of `c`, an ASCII capital read as its small letter.
pub open spec fn lowered(c: char) -> int {
    if 'A' <= c && c <= 'Z' {
        c as u32 + 32
    } else {
        c as u32 as int
    }
}

/// Whether `s` is `word` once the ASCII capitals of `s` are read as small
/// letters. `word` is taken as it stands.
pub open spec fn same_ignoring_case(s: Seq<char>, word: Seq<char>) -> bool
    decreases s.len(),
{
    if s.len() == 0 {
        word.len() == 0
    } else if word.len() == 0 {
        false
    } else {
        lowered(s[0]) == word[0] as u32 && same_ignoring_case(s.skip(1), word.skip(1))
    }
}

/// Decides [`same_ignoring_case`] on two strings.
pub fn matches_ignoring_case(s: &str, word: &str) -> (r: bool)
    ensures
        r == same_ignoring_case(s@, word@),
{
    broadcast use group_string_axioms;

    let mut left = s.chars();
    let mut right = word.chars();
    loop
        invariant
            left.obeys_prophetic_iter_laws(),
            right.obeys_prophetic_iter_laws(),
            left.decrease() is Some,
            same_ignoring_case(s@, word@) == same_ignoring_case(
                left.remaining(),
                right.remaining(),
            ),
        decreases left.decrease()->0,
    {
        let x = left.next();
        let y = right.next();
        match x {
            None => {
                return y.is_none();
            },
            Some(c) => {
                match y {
                    None => {
                        return false;
                    },
                    Some(d) => {
                        let code: u32 = c as u32;
                        let low: u32 = if 'A' <= c && c <= 'Z' {
                            code + 32
                        } else {
                            code
                        };
                        if low != d as u32 {
                            return false;
                        }
                    },
                }
            },
        }
    }
}

/// The numeral of a single digit.
pub open spec fn digit(d: nat) -> Seq<char> {
    if d == 0 {
        "0"@
    } else if d == 1 {
        "1"@
    } else if d == 2 {
        "2"@
    } else if d == 3 {
        "3"@
    } else if d == 4 {
        "4"@
    } else if d == 5 {
        "5"@
    } else if d == 6 {
        "6"@
    } else if d == 7 {
        "7"@
    } else if d == 8 {
        "8"@
    } else {
        "9"@
    }
}

/// The decimal numeral of `n`, without leading zeros.
pub open spec fn decimal(n: nat) -> Seq<char>
    decreases n,
{
    if n < 10 {
        digit(n)
    } else {
        decimal(n / 10) + digit(n % 10)
    }
}

fn digit_str(d: usize) -> (r: &'static str)
    requires
        d < 10,
    ensures
        r@ == digit(d as nat),
{
    if d == 0 {
        "0"
    } else if d == 1 {
        "1"
    } else if d == 2 {
        "2"
    } else if d == 3 {
        "3"
    } else if d == 4 {
        "4"
    } else if d == 5 {
        "5"
    } else if d == 6 {
        "6"
    } else if d == 7 {
        "7"
    } else if d == 8 {
        "8"
    } else {
        "9"
    }
}

/// Renders `n` in decimal.
pub fn decimal_string(n: usize) -> (r: String)
    ensures
        r@ == decimal(n as nat),
    decreases n,
{
    if n < 10 {
        digit_str(n).to_owned()
    } else {
        let mut r = decimal_string(n / 10);
        r.append(digit_str(n % 10));
        r
    }
}

/// How many characters of `s` stand before its first `sep`: all of them when
/// `s` holds no `sep`.
pub open spec fn span_before(s: Seq<char>, sep: char) -> nat
    decreases s.len(),
{
    if s.len() == 0 || s[0] == sep {
        0
    } else {
        1 + span_before(s.skip(1), sep)
    }
}

/// The `n`-th of the fields that `sep` parts `s` into, counted from 0, or
/// `None` when `s` has `n` fields or fewer.
pub open spec fn field(s: Seq<char>, sep: char, n: nat) -> Option<Seq<char>>
    decreases n,
{
    let k = span_before(s, sep) as int;
    if n == 0 {
        Some(s.take(k))
    } else if k < s.len() {
        field(s.skip(k + 1), sep, (n - 1) as nat)
    } else {
        None
    }
}

/// [`span_before`] is the one position that no `sep` precedes and that either
/// holds a `sep` or ends the text.
pub proof fn lemma_span_before_is(s: Seq<char>, sep: char, m: int)
    requires
        0 <= m <= s.len(),
        forall|j: int| 0 <= j < m ==> s[j] != sep,
        m == s.len() || s[m] == sep,
    ensures
        span_before(s, sep) == m,
    decreases m,
{
    if m > 0 {
        lemma_span_before_is(s.skip(1), sep, m - 1);
    }
}

/// Passing over one character that is no `sep` stays within the same field.
pub proof fn lemma_field_step(s: Seq<char>, sep: char, n: nat)
    requires
        s.len() > 0,
        n > 0,
    ensures
        s[0] == sep ==> field(s, sep, n) == field(s.skip(1), sep, (n - 1) as nat),
        s[0] != sep ==> field(s, sep, n) == field(s.skip(1), sep, n),
{
    if s[0] != sep {
        let rest = s.skip(1);
        let k = span_before(rest, sep) as int;
        assert(span_before(s, sep) == k + 1);
        if k < rest.len() {
            assert(s.skip(k + 2) =~= rest.skip(k + 1));
        }
    }
}

} // verus!
