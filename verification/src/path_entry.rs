//! A candidate entry: an optional display override plus a mandatory
//! canonical path, ordered and deduplicated by the (override, path) pair.

use vstd::prelude::*;
use crate::chars::{clone_chars, lex_cmp, lex_lt, lemma_lex_lt_irreflexive,
    lemma_lex_lt_transitive, CharsOrdering};

verus! {

/// One candidate the user can search for.
pub struct PathEntry {
    /// Shown and matched instead of the path when present.
    repr: Option<Vec<char>>,
    /// The canonical path the entry stands for.
    path: Vec<char>,
}

/// The mathematical value of a [`PathEntry`].
pub struct PathEntryView {
    pub repr: Option<Seq<char>>,
    pub path: Seq<char>,
}

impl View for PathEntry {
    type V = PathEntryView;

    closed spec fn view(&self) -> PathEntryView {
        PathEntryView {
            repr: match self.repr {
                Option::Some(r) => Option::Some(r@),
                Option::None => Option::None,
            },
            path: self.path@,
        }
    }
}

/// What the entry displays, and what the matcher runs on: the override when
/// present, the canonical path otherwise.
pub open spec fn spec_display(e: PathEntryView) -> Seq<char> {
    match e.repr {
        Option::Some(r) => r,
        Option::None => e.path,
    }
}

/// Strict total order on entries by their (display override, canonical path)
/// key: an absent override sorts before any present one, present overrides
/// compare lexicographically, and the path breaks ties.
pub open spec fn entry_lt(x: PathEntryView, y: PathEntryView) -> bool {
    match (x.repr, y.repr) {
        (Option::None, Option::Some(_)) => true,
        (Option::Some(_), Option::None) => false,
        (Option::Some(rx), Option::Some(ry)) => lex_lt(rx, ry) || (rx == ry && lex_lt(
            x.path,
            y.path,
        )),
        (Option::None, Option::None) => lex_lt(x.path, y.path),
    }
}

pub proof fn lemma_entry_lt_irreflexive(x: PathEntryView)
    ensures
        !entry_lt(x, x),
{
    match x.repr {
        Option::Some(rx) => {
            lemma_lex_lt_irreflexive(rx);
            lemma_lex_lt_irreflexive(x.path);
        },
        Option::None => {
            lemma_lex_lt_irreflexive(x.path);
        },
    }
}

pub proof fn lemma_entry_lt_transitive(x: PathEntryView, y: PathEntryView, z: PathEntryView)
    requires
        entry_lt(x, y),
        entry_lt(y, z),
    ensures
        entry_lt(x, z),
{
    match (x.repr, y.repr, z.repr) {
        (Option::Some(rx), Option::Some(ry), Option::Some(rz)) => {
            if lex_lt(rx, ry) && lex_lt(ry, rz) {
                lemma_lex_lt_transitive(rx, ry, rz);
            } else if rx == ry && ry == rz {
                lemma_lex_lt_transitive(x.path, y.path, z.path);
            }
        },
        (Option::None, Option::None, Option::None) => {
            lemma_lex_lt_transitive(x.path, y.path, z.path);
        },
        _ => {},
    }
}

impl PathEntry {
    /// An entry with an explicit display override.
    pub fn new(repr: Vec<char>, path: Vec<char>) -> (r: Self)
        ensures
            r@ == (PathEntryView { repr: Option::Some(repr@), path: path@ }),
    {
        PathEntry { repr: Option::Some(repr), path }
    }

    /// An entry displayed as its canonical path, the shape the crawler
    /// produces.
    pub fn from_path(path: Vec<char>) -> (r: Self)
        ensures
            r@ == (PathEntryView { repr: Option::None, path: path@ }),
    {
        PathEntry { repr: Option::None, path }
    }

    /// The canonical path, as an owned copy.
    pub fn path(&self) -> (r: Vec<char>)
        ensures
            r@ == self@.path,
    {
        clone_chars(&self.path)
    }

    /// The display representation used for matching and rendering.
    pub fn repr(&self) -> (r: &Vec<char>)
        ensures
            r@ == spec_display(self@),
    {
        match &self.repr {
            Option::Some(r) => r,
            Option::None => &self.path,
        }
    }

    /// An independent copy of the entry.
    pub fn duplicate(&self) -> (r: Self)
        ensures
            r@ == self@,
    {
        PathEntry {
            repr: match &self.repr {
                Option::Some(r) => Option::Some(clone_chars(r)),
                Option::None => Option::None,
            },
            path: clone_chars(&self.path),
        }
    }
}

/// Compare two entries by their deduplication key.
pub fn entry_cmp(a: &PathEntry, b: &PathEntry) -> (r: CharsOrdering)
    ensures
        (r is Less) == entry_lt(a@, b@),
        (r is Greater) == entry_lt(b@, a@),
        (r is Equal) == (a@ == b@),
{
    match (&a.repr, &b.repr) {
        (Option::None, Option::Some(_)) => CharsOrdering::Less,
        (Option::Some(_), Option::None) => CharsOrdering::Greater,
        (Option::Some(ra), Option::Some(rb)) => {
            let c = lex_cmp(ra, rb);
            match c {
                CharsOrdering::Equal => {
                    let p = lex_cmp(&a.path, &b.path);
                    proof {
                        if a.path@ == b.path@ {
                            assert(a@ == b@);
                        }
                        lemma_lex_lt_irreflexive(ra@);
                    }
                    p
                },
                _ => {
                    proof {
                        if a@ == b@ {
                            assert(ra@ == rb@);
                        }
                    }
                    c
                },
            }
        },
        (Option::None, Option::None) => {
            let p = lex_cmp(&a.path, &b.path);
            proof {
                if a.path@ == b.path@ {
                    assert(a@ == b@);
                }
            }
            p
        },
    }
}

} // verus!
