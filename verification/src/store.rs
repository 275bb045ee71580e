//! The candidate store: a deduplicated, key-ordered collection of
//! [`PathEntry`] values with stable identifiers.
//!
//! Entries live in an append-only arena, so the identifier handed out for an
//! entry stays valid for the life of the store; a match record can refer to
//! its candidate by identifier without owning it. A separate index lists the
//! arena identifiers in the strict (override, path) key order, which is the
//! order the matching engine walks.

use vstd::prelude::*;
use vstd::seq_lib::group_seq_properties;
use crate::chars::CharsOrdering;
use crate::path_entry::{entry_cmp, entry_lt, lemma_entry_lt_irreflexive,
    lemma_entry_lt_transitive, PathEntry, PathEntryView};

verus! {

/// Whether some entry of `arena` has the value `v`.
pub open spec fn spec_contains(arena: Seq<PathEntryView>, v: PathEntryView) -> bool {
    exists|i: int| 0 <= i < arena.len() && arena[i] == v
}

/// What inserting `v` does to the arena: nothing when an entry with the same
/// (override, path) key is already present, an append otherwise.
pub open spec fn spec_insert_arena(arena: Seq<PathEntryView>, v: PathEntryView) -> Seq<
    PathEntryView,
> {
    if spec_contains(arena, v) {
        arena
    } else {
        arena.push(v)
    }
}

/// Inserting an entry a second time is a no-op: the arena, and with it the
/// candidate count, stay exactly as they were after the first insertion.
pub proof fn lemma_insert_idempotent(arena: Seq<PathEntryView>, v: PathEntryView)
    ensures
        spec_insert_arena(spec_insert_arena(arena, v), v) == spec_insert_arena(arena, v),
        spec_insert_arena(spec_insert_arena(arena, v), v).len() == spec_insert_arena(
            arena,
            v,
        ).len(),
{
    let once = spec_insert_arena(arena, v);
    if !spec_contains(arena, v) {
        assert(once[arena.len() as int] == v);
    }
    assert(spec_contains(once, v));
}

/// Ordered, duplicate-free container of candidates, keyed by the
/// (display override, canonical path) pair.
pub struct CandidateStore {
    /// Append-only arena; an entry's position is its stable identifier.
    entries: Vec<PathEntry>,
    /// Arena identifiers, in strictly ascending key order.
    sorted: Vec<usize>,
}

impl CandidateStore {
    /// The entries by stable identifier.
    pub closed spec fn arena(&self) -> Seq<PathEntryView> {
        self.entries@.map_values(|e: PathEntry| e@)
    }

    /// The identifiers in key order; the iteration order of the store.
    pub closed spec fn sorted_ids(&self) -> Seq<usize> {
        self.sorted@
    }

    /// Whether an entry with the value `v` is present.
    pub open spec fn contains_entry(&self, v: PathEntryView) -> bool {
        spec_contains(self.arena(), v)
    }

    /// The store's invariant: the index lists every arena identifier exactly
    /// once, in strictly ascending key order.
    pub open spec fn wf(&self) -> bool {
        &&& self.sorted_ids().len() == self.arena().len()
        &&& forall|k: int|
            0 <= k < self.sorted_ids().len() ==> (self.sorted_ids()[k] as int) < self.arena().len()
        &&& forall|i: int, j: int|
            0 <= i < j < self.sorted_ids().len() ==> entry_lt(
                self.arena()[self.sorted_ids()[i] as int],
                self.arena()[self.sorted_ids()[j] as int],
            )
        &&& forall|id: int|
            0 <= id < self.arena().len() ==> #[trigger] self.sorted_ids().contains(id as usize)
    }

    /// An empty store.
    pub fn new() -> (r: Self)
        ensures
            r.wf(),
            r.arena() == Seq::<PathEntryView>::empty(),
            r.sorted_ids() == Seq::<usize>::empty(),
    {
        let r = CandidateStore { entries: Vec::new(), sorted: Vec::new() };
        proof {
            assert(r.arena() =~= Seq::<PathEntryView>::empty());
            assert(r.sorted_ids() =~= Seq::<usize>::empty());
        }
        r
    }

    /// How many candidates the store holds.
    pub fn len(&self) -> (r: usize)
        ensures
            r == self.arena().len(),
    {
        self.entries.len()
    }

    /// The entry with identifier `id`, or nothing when no such entry exists.
    pub fn get(&self, id: usize) -> (r: Option<&PathEntry>)
        ensures
            r is Some <==> (id as int) < self.arena().len(),
            r is Some ==> r->0@ == self.arena()[id as int],
    {
        if id < self.entries.len() {
            Some(&self.entries[id])
        } else {
            None
        }
    }

    /// The entry with identifier `id`, which must resolve.
    pub fn entry_at(&self, id: usize) -> (r: &PathEntry)
        requires
            (id as int) < self.arena().len(),
        ensures
            r@ == self.arena()[id as int],
    {
        &self.entries[id]
    }

    /// The identifier at position `k` of the key order.
    pub fn sorted_id_at(&self, k: usize) -> (r: usize)
        requires
            self.wf(),
            (k as int) < self.sorted_ids().len(),
        ensures
            r == self.sorted_ids()[k as int],
            (r as int) < self.arena().len(),
    {
        self.sorted[k]
    }

    /// Where `e` belongs in the key order: the first position whose entry is
    /// not below `e`, and whether that position already holds `e`'s key.
    fn find_pos(&self, e: &PathEntry) -> (r: (usize, bool))
        requires
            self.wf(),
        ensures
            ({
                let (k, found) = r;
                &&& k as int <= self.sorted_ids().len()
                &&& forall|i: int|
                    0 <= i < k as int ==> entry_lt(
                        self.arena()[self.sorted_ids()[i] as int],
                        e@,
                    )
                &&& found ==> (k as int) < self.sorted_ids().len() && self.arena()[self.sorted_ids()[k as int] as int] == e@
                &&& !found ==> ((k as int) == self.sorted_ids().len() || entry_lt(
                    e@,
                    self.arena()[self.sorted_ids()[k as int] as int],
                ))
            }),
    {
        let mut k: usize = 0;
        while k < self.sorted.len()
            invariant
                self.wf(),
                0 <= k as int <= self.sorted_ids().len(),
                forall|i: int|
                    0 <= i < k as int ==> entry_lt(self.arena()[self.sorted_ids()[i] as int], e@),
            decreases self.sorted_ids().len() - k as int,
        {
            let id = self.sorted[k];
            let c = entry_cmp(&self.entries[id], e);
            match c {
                CharsOrdering::Less => {
                    k = k + 1;
                },
                CharsOrdering::Equal => {
                    return (k, true);
                },
                CharsOrdering::Greater => {
                    return (k, false);
                },
            }
        }
        (k, false)
    }

    /// Insert a candidate, deduplicating by its (override, path) key:
    /// re-inserting an existing key is a no-op, anything else is appended to
    /// the arena and spliced into the key order.
    pub fn insert(&mut self, e: PathEntry)
        requires
            old(self).wf(),
        ensures
            final(self).wf(),
            final(self).arena() == spec_insert_arena(old(self).arena(), e@),
            final(self).contains_entry(e@),
            old(self).contains_entry(e@) ==> final(self).arena() == old(self).arena()
                && final(self).sorted_ids() == old(self).sorted_ids(),
            !old(self).contains_entry(e@) ==> final(self).arena() == old(self).arena().push(e@),
    {
        broadcast use group_seq_properties;

        let (k, found) = self.find_pos(&e);
        if found {
            proof {
                let ghost kk = self.sorted_ids()[k as int] as int;
                assert(0 <= kk < self.arena().len() && self.arena()[kk] == e@);
                assert(self.contains_entry(e@));
            }
            return ;
        }
        proof {
            let s = *self;
            assert forall|pos: int| 0 <= pos < s.sorted_ids().len() implies s.arena()[s.sorted_ids()[pos] as int]
                != e@ by {
                let ent = s.arena()[s.sorted_ids()[pos] as int];
                if pos < k as int {
                    if ent == e@ {
                        lemma_entry_lt_irreflexive(e@);
                    }
                } else if pos == k as int {
                    if ent == e@ {
                        lemma_entry_lt_irreflexive(e@);
                    }
                } else {
                    assert(entry_lt(s.arena()[s.sorted_ids()[k as int] as int], ent));
                    lemma_entry_lt_transitive(e@, s.arena()[s.sorted_ids()[k as int] as int], ent);
                    if ent == e@ {
                        lemma_entry_lt_irreflexive(e@);
                    }
                }
            }
            if s.contains_entry(e@) {
                let i = choose|i: int| 0 <= i < s.arena().len() && s.arena()[i] == e@;
                assert(s.entries.len() == s.entries@.len());
                let iu = i as usize;
                assert(iu as int == i);
                assert(s.sorted_ids().contains(iu));
                let pos = choose|pos: int|
                    0 <= pos < s.sorted_ids().len() && s.sorted_ids()[pos] == iu;
                assert(s.arena()[s.sorted_ids()[pos] as int] == e@);
                assert(false);
            }
        }
        let ghost old_arena = self.arena();
        let ghost old_sorted = self.sorted_ids();
        let ghost ev = e@;
        let new_id = self.entries.len();
        self.entries.push(e);
        self.sorted.insert(k, new_id);
        proof {
            old_sorted.insert_ensures(k as int, new_id);
            assert(self.arena() =~= old_arena.push(ev));
            assert(self.sorted_ids() == old_sorted.insert(k as int, new_id));
            let a = self.arena();
            let s = self.sorted_ids();
            let n = old_arena.len() as int;
            // every old identifier still points at the same entry value
            assert(forall|id: int| 0 <= id < n ==> a[id] == old_arena[id]);
            // index entries are in range
            assert forall|p: int| 0 <= p < s.len() implies (s[p] as int) < a.len() by {
                if p < k as int {
                    assert(s[p] == old_sorted[p]);
                } else if p == k as int {
                    assert(s[p] == new_id);
                } else {
                    assert(s[p] == old_sorted[p - 1]);
                }
            }
            // strict key order is kept
            assert forall|i: int, j: int| 0 <= i < j < s.len() implies entry_lt(
                a[s[i] as int],
                a[s[j] as int],
            ) by {
                let ki = k as int;
                if i < ki && j < ki {
                    assert(entry_lt(old_arena[old_sorted[i] as int], old_arena[old_sorted[j] as int]));
                } else if i < ki && j == ki {
                    assert(entry_lt(old_arena[old_sorted[i] as int], ev));
                } else if i < ki && j > ki {
                    assert(entry_lt(old_arena[old_sorted[i] as int], old_arena[old_sorted[j - 1] as int]));
                } else if i == ki && j > ki {
                    // e is below the entry that was at position k, which is
                    // at or below the entry now at position j
                    assert(ki < old_sorted.len());
                    let at_k = old_arena[old_sorted[ki] as int];
                    assert(entry_lt(ev, at_k));
                    if j - 1 > ki {
                        assert(entry_lt(at_k, old_arena[old_sorted[j - 1] as int]));
                        lemma_entry_lt_transitive(ev, at_k, old_arena[old_sorted[j - 1] as int]);
                    }
                } else {
                    assert(i > ki && j > ki);
                    assert(entry_lt(old_arena[old_sorted[i - 1] as int], old_arena[old_sorted[j - 1] as int]));
                }
            }
            // the index still reaches every identifier
            assert forall|id: int| 0 <= id < a.len() implies #[trigger] s.contains(id as usize) by {
                if id < n {
                    assert(old_sorted.contains(id as usize));
                    let p = choose|p: int|
                        0 <= p < old_sorted.len() && old_sorted[p] == id as usize;
                    if p < k as int {
                        assert(s[p] == id as usize);
                    } else {
                        assert(s[p + 1] == id as usize);
                    }
                } else {
                    assert(s[k as int] == id as usize);
                }
            }
            assert(self.contains_entry(ev)) by {
                assert(a[n] == ev);
            }
        }
    }
}

} // verus!
