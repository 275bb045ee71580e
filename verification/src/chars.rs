//! Character-sequence utilities: conversion from `str`, copying, and a
//! verified lexicographic order used to keep the candidate store sorted.

use vstd::prelude::*;
use vstd::string::StrSliceExecFns;

verus! {

/// Strict lexicographic order on character sequences, by code point: a
/// proper prefix sorts first, otherwise the first differing position
/// decides.
pub open spec fn lex_lt(a: Seq<char>, b: Seq<char>) -> bool
    decreases a.len(),
{
    if b.len() == 0 {
        false
    } else if a.len() == 0 {
        true
    } else if a[0] != b[0] {
        a[0] < b[0]
    } else {
        lex_lt(a.drop_first(), b.drop_first())
    }
}

pub proof fn lemma_lex_lt_irreflexive(a: Seq<char>)
    ensures
        !lex_lt(a, a),
    decreases a.len(),
{
    if a.len() > 0 {
        lemma_lex_lt_irreflexive(a.drop_first());
    }
}

pub proof fn lemma_lex_lt_asymmetric(a: Seq<char>, b: Seq<char>)
    requires
        lex_lt(a, b),
    ensures
        !lex_lt(b, a),
    decreases a.len(),
{
    if a.len() > 0 && b.len() > 0 && a[0] == b[0] {
        lemma_lex_lt_asymmetric(a.drop_first(), b.drop_first());
    }
}

pub proof fn lemma_lex_lt_transitive(a: Seq<char>, b: Seq<char>, c: Seq<char>)
    requires
        lex_lt(a, b),
        lex_lt(b, c),
    ensures
        lex_lt(a, c),
    decreases a.len(),
{
    if a.len() > 0 && b.len() > 0 && c.len() > 0 && a[0] == b[0] && b[0] == c[0] {
        lemma_lex_lt_transitive(a.drop_first(), b.drop_first(), c.drop_first());
    }
}

/// If `a` and `b` agree on their first `i` characters, what happens at
/// position `i` decides the order: a smaller character there, or `a` ending
/// while `b` goes on, puts `a` first; both ending makes them equal.
pub proof fn lemma_lex_lt_prefix(a: Seq<char>, b: Seq<char>, i: int)
    requires
        0 <= i <= a.len(),
        i <= b.len(),
        forall|j: int| 0 <= j < i ==> a[j] == b[j],
    ensures
        (i < a.len() && i < b.len() && a[i] < b[i]) ==> lex_lt(a, b),
        (i == a.len() && i < b.len()) ==> lex_lt(a, b),
        (i == a.len() && i == b.len()) ==> a == b,
    decreases i,
{
    if i == 0 {
        if i == a.len() && i == b.len() {
            assert(a =~= b);
        }
    } else {
        assert(a[0] == b[0]);
        lemma_lex_lt_prefix(a.drop_first(), b.drop_first(), i - 1);
        if i == a.len() && i == b.len() {
            assert(a.drop_first() == b.drop_first());
            assert(a =~= b);
        }
    }
}

/// Three-way outcome of comparing two character sequences.
#[derive(Clone, Copy, Debug, PartialEq, Eq, Structural)]
pub enum CharsOrdering {
    Less,
    Equal,
    Greater,
}

/// Compare two character sequences in the order of [`lex_lt`].
pub fn lex_cmp(a: &Vec<char>, b: &Vec<char>) -> (r: CharsOrdering)
    ensures
        (r is Less) == lex_lt(a@, b@),
        (r is Greater) == lex_lt(b@, a@),
        (r is Equal) == (a@ == b@),
{
    let mut i: usize = 0;
    loop
        invariant
            0 <= i <= a@.len(),
            i <= b@.len(),
            forall|j: int| 0 <= j < i ==> a@[j] == b@[j],
        decreases a@.len() - i,
    {
        if i == a.len() {
            proof {
                lemma_lex_lt_prefix(a@, b@, i as int);
            }
            if i == b.len() {
                proof {
                    lemma_lex_lt_irreflexive(a@);
                }
                return CharsOrdering::Equal;
            } else {
                proof {
                    lemma_lex_lt_asymmetric(a@, b@);
                }
                return CharsOrdering::Less;
            }
        }
        if i == b.len() {
            proof {
                lemma_lex_lt_prefix(b@, a@, i as int);
                lemma_lex_lt_asymmetric(b@, a@);
            }
            return CharsOrdering::Greater;
        }
        let ca = a[i];
        let cb = b[i];
        if ca != cb {
            proof {
                assert(a@[i as int] != b@[i as int]);
            }
            if ca < cb {
                proof {
                    lemma_lex_lt_prefix(a@, b@, i as int);
                    lemma_lex_lt_asymmetric(a@, b@);
                }
                return CharsOrdering::Less;
            } else {
                proof {
                    lemma_lex_lt_prefix(b@, a@, i as int);
                    lemma_lex_lt_asymmetric(b@, a@);
                }
                return CharsOrdering::Greater;
            }
        }
        i = i + 1;
    }
}

/// The characters of a string slice, in order, as a vector.
pub fn chars_of(s: &str) -> (r: Vec<char>)
    ensures
        r@ == s@,
{
    let n = s.unicode_len();
    let mut r: Vec<char> = Vec::new();
    let mut i: usize = 0;
    while i < n
        invariant
            n == s@.len(),
            0 <= i <= n,
            r@ == s@.subrange(0, i as int),
        decreases n - i,
    {
        r.push(s.get_char(i));
        proof {
            assert(r@ =~= s@.subrange(0, i + 1 as int));
        }
        i = i + 1;
    }
    proof {
        assert(r@ =~= s@);
    }
    r
}

/// An independent copy of a character vector.
pub fn clone_chars(v: &Vec<char>) -> (r: Vec<char>)
    ensures
        r@ == v@,
{
    let mut r: Vec<char> = Vec::new();
    let mut i: usize = 0;
    while i < v.len()
        invariant
            0 <= i <= v@.len(),
            r@ == v@.subrange(0, i as int),
        decreases v@.len() - i,
    {
        r.push(v[i]);
        proof {
            assert(r@ =~= v@.subrange(0, i + 1 as int));
        }
        i = i + 1;
    }
    proof {
        assert(r@ =~= v@);
    }
    r
}

} // verus!
