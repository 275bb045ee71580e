//! The session engine: owns the candidate store, the query buffer, the
//! current match list, the selection cursor and a transient error log, and
//! turns every external event into a state transition plus a redraw signal.
//!
//! These invariants hold after every completed operation and are part of
//! [`FuzzySearchContext::wf`]: the cursor always lies in
//! `[0, max(1, match_count))`, there are never more matches than candidates,
//! the match list is never stale, and every match's highlight positions
//! spell the query inside its candidate's display representation.

use vstd::prelude::*;
use crate::errors::{InternalError, PluginError};
use crate::matcher::{apply_matches, lemma_apply_matches_len, match_spells_query, match_wf,
    matches_view, FuzzyMatcher, Match};
use crate::path_entry::{PathEntry, PathEntryView};
use crate::store::{spec_insert_arena, CandidateStore};
use crate::update_loop::PluginUpdateLoop;

verus! {

/// Where a cursor lands when clamped into a list of `len` entries: the
/// nearest valid index, or 0 when the list is empty.
pub open spec fn clamp_spec(i: int, len: int) -> int {
    if len <= 0 {
        0
    } else if i >= len {
        len - 1
    } else if i < 0 {
        0
    } else {
        i
    }
}

/// What inserting each entry of `vs`, front to back, does to the arena.
pub open spec fn spec_insert_seq(
    arena: Seq<PathEntryView>,
    vs: Seq<PathEntryView>,
) -> Seq<PathEntryView>
    decreases vs.len(),
{
    if vs.len() == 0 {
        arena
    } else {
        spec_insert_arena(spec_insert_seq(arena, vs.drop_last()), vs.last())
    }
}

/// The mutable state of one fuzzy-search session.
pub struct FuzzySearchContext {
    /// The user input query.
    user_input: Vec<char>,
    /// The deduplicated candidates to run the fuzzy matcher on.
    choices: CandidateStore,
    /// The match list computed at the last invalidation.
    matches: Vec<Match>,
    /// The index of the currently selected match.
    selected_index: usize,
    /// Non-fatal errors raised since the last clear.
    errors: Vec<PluginError>,
    /// Scores candidates against the user input.
    matcher: FuzzyMatcher,
}

impl FuzzySearchContext {
    /// The query buffer.
    pub closed spec fn query(&self) -> Seq<char> {
        self.user_input@
    }

    /// The candidates, by stable identifier.
    pub closed spec fn candidates(&self) -> Seq<PathEntryView> {
        self.choices.arena()
    }

    /// The candidate identifiers in the key order the matcher walks.
    pub closed spec fn candidate_order(&self) -> Seq<usize> {
        self.choices.sorted_ids()
    }

    /// The current match list.
    pub closed spec fn match_list(&self) -> Seq<crate::matcher::MatchView> {
        matches_view(self.matches@)
    }

    /// The selection cursor.
    pub closed spec fn cursor(&self) -> int {
        self.selected_index as int
    }

    /// The transient error log.
    pub closed spec fn error_log(&self) -> Seq<PluginError> {
        self.errors@
    }

    /// The session invariant, reestablished by every operation: the store is
    /// well formed, the cursor lies in `[0, max(1, match_count))`, there are
    /// never more matches than candidates, every match record resolves,
    /// carries well-formed highlight positions that spell the query, and the
    /// match list is exactly the matcher's answer for the current query and
    /// store — no read ever sees a stale list.
    pub closed spec fn wf(&self) -> bool {
        &&& self.choices.wf()
        &&& self.matches@.len() <= self.choices.arena().len()
        &&& (self.selected_index as int) < self.matches@.len() || self.selected_index == 0
        &&& forall|k: int|
            0 <= k < self.matches@.len() ==> match_wf(
                #[trigger] matches_view(self.matches@)[k],
                self.choices.arena(),
            )
        &&& forall|k: int|
            0 <= k < self.matches@.len() ==> match_spells_query(
                #[trigger] matches_view(self.matches@)[k],
                self.choices.arena(),
                self.user_input@,
            )
        &&& matches_view(self.matches@) == apply_matches(
            self.user_input@,
            self.choices.arena(),
            self.choices.sorted_ids(),
        )
    }

    /// Whether some match record points at the candidate with identifier
    /// `id`.
    pub open spec fn appears_in_matches(&self, id: int) -> bool {
        exists|k: int|
            0 <= k < self.match_list().len() && (#[trigger] self.match_list()[k].choice as int)
                == id
    }

    /// The filter state an empty query owes: every candidate appears in the
    /// match list, each with an empty highlight list.
    pub open spec fn lists_every_candidate(&self) -> bool {
        &&& self.match_list().len() == self.candidates().len()
        &&& forall|id: int|
            0 <= id < self.candidates().len() ==> #[trigger] self.appears_in_matches(id)
        &&& forall|k: int|
            0 <= k < self.match_list().len() ==> (#[trigger] self.match_list()[k]).indices.len()
                == 0
    }
}

/// After any completed operation, `0 <= selection_cursor < max(1, match_count)`.
pub proof fn lemma_cursor_in_range(s: &FuzzySearchContext)
    requires
        s.wf(),
    ensures
        0 <= s.cursor(),
        s.cursor() < (if s.match_list().len() == 0 {
            1int
        } else {
            s.match_list().len() as int
        }),
{
}

/// A session never holds more matches than candidates.
pub proof fn lemma_match_count_le_candidate_count(s: &FuzzySearchContext)
    requires
        s.wf(),
    ensures
        s.match_list().len() <= s.candidates().len(),
{
}

/// Every match record of a well-formed session highlights strictly ascending
/// character positions that lie inside its candidate's display
/// representation.
pub proof fn lemma_highlights_well_formed(s: &FuzzySearchContext, k: int)
    requires
        s.wf(),
        0 <= k < s.match_list().len(),
    ensures
        match_wf(s.match_list()[k], s.candidates()),
{
}

/// Every match record's highlight positions spell the query, character by
/// character in order, inside its candidate's display representation — up to
/// the matcher's ASCII case folding, under which a lower-case query
/// character may highlight its upper-case form and vice versa.
pub proof fn lemma_highlights_spell_query(s: &FuzzySearchContext, k: int)
    requires
        s.wf(),
        0 <= k < s.match_list().len(),
    ensures
        match_spells_query(s.match_list()[k], s.candidates(), s.query()),
{
}

impl Default for FuzzySearchContext {
    /// An empty session: no query, no candidates, no matches, no errors,
    /// cursor at 0.
    fn default() -> (r: Self)
        ensures
            r.wf(),
            r.query() == Seq::<char>::empty(),
            r.candidates() == Seq::<PathEntryView>::empty(),
            r.candidate_order() == Seq::<usize>::empty(),
            r.match_list() == Seq::<crate::matcher::MatchView>::empty(),
            r.cursor() == 0,
            r.error_log() == Seq::<PluginError>::empty(),
    {
        let r = FuzzySearchContext {
            user_input: Vec::new(),
            choices: CandidateStore::new(),
            matches: Vec::new(),
            selected_index: 0,
            errors: Vec::new(),
            matcher: FuzzyMatcher::new(),
        };
        proof {
            assert(r.query() =~= Seq::<char>::empty());
            assert(r.match_list() =~= Seq::<crate::matcher::MatchView>::empty());
            assert(r.error_log() =~= Seq::<PluginError>::empty());
            assert(apply_matches(r.query(), r.candidates(), r.candidate_order())
                =~= Seq::<crate::matcher::MatchView>::empty());
        }
        r
    }
}

impl FuzzySearchContext {
    /// Recompute the match list for the current query and store, replace it
    /// wholesale, and clamp the cursor into the new valid range.
    fn invalidate_matches(&mut self)
        requires
            old(self).choices.wf(),
        ensures
            final(self).user_input == old(self).user_input,
            final(self).choices == old(self).choices,
            final(self).errors == old(self).errors,
            final(self).wf(),
            final(self).match_list() == apply_matches(
                old(self).query(),
                old(self).candidates(),
                old(self).candidate_order(),
            ),
            final(self).cursor() == clamp_spec(old(self).cursor(), final(self).match_list().len() as int),
            old(self).query().len() == 0 ==> final(self).lists_every_candidate(),
    {
        let ms = self.matcher.apply(&self.user_input, &self.choices);
        proof {
            lemma_apply_matches_len(self.user_input@, self.choices.arena(), self.choices.sorted_ids());
        }
        self.matches = ms;
        let len = self.matches.len();
        if len == 0 {
            self.selected_index = 0;
        } else if self.selected_index > len - 1 {
            self.selected_index = len - 1;
        }
        proof {
            let s = *self;
            if old(self).query().len() == 0 {
                assert(s.matches@.len() == s.choices.sorted_ids().len());
                assert(s.match_list().len() == s.candidates().len());
                assert forall|k: int|
                    0 <= k < s.match_list().len() implies (#[trigger] s.match_list()[k]).indices.len()
                        == 0 by {
                    assert(s.matches@[k].indices@.len() == 0);
                }
                assert forall|id: int|
                    0 <= id < s.candidates().len() implies #[trigger] s.appears_in_matches(
                    id,
                ) by {
                    assert(s.choices.sorted_ids().contains(id as usize));
                    let pos = choose|pos: int|
                        0 <= pos < s.choices.sorted_ids().len() && s.choices.sorted_ids()[pos]
                            == id as usize;
                    assert(s.matches@[pos].choice == s.choices.sorted_ids()[pos]);
                    assert((s.match_list()[pos].choice as int) == id);
                }
            }
        }
    }

    /// The query text as typed so far.
    pub fn user_input(&self) -> (r: &Vec<char>)
        ensures
            r@ == self.query(),
    {
        &self.user_input
    }

    /// The cursor's position in the current match list.
    pub fn selected_index(&self) -> (r: usize)
        ensures
            r as int == self.cursor(),
    {
        self.selected_index
    }

    /// Resolve the match under the cursor to its candidate. When the cursor
    /// has no corresponding match (an empty match list), a
    /// selection-index-out-of-range error is logged and nothing is returned.
    pub fn selected_match(&mut self) -> (r: Option<PathEntry>)
        requires
            old(self).wf(),
        ensures
            final(self).wf(),
            final(self).query() == old(self).query(),
            final(self).candidates() == old(self).candidates(),
            final(self).candidate_order() == old(self).candidate_order(),
            final(self).match_list() == old(self).match_list(),
            final(self).cursor() == old(self).cursor(),
            old(self).cursor() < old(self).match_list().len() ==> {
                &&& r is Some
                &&& r->0@ == old(self).candidates()[old(self).match_list()[old(self).cursor()].choice as int]
                &&& final(self).error_log() == old(self).error_log()
            },
            old(self).cursor() >= old(self).match_list().len() ==> {
                &&& r is None
                &&& final(self).error_log() == old(self).error_log().push(
                    PluginError::UnexpectedError(
                        InternalError::SelectionIndexOutOfBounds((old(self).cursor()) as usize),
                    ),
                )
            },
    {
        if self.selected_index < self.matches.len() {
            let id = self.matches[self.selected_index].choice;
            proof {
                assert(match_wf(
                    matches_view(self.matches@)[self.selected_index as int],
                    self.choices.arena(),
                ));
            }
            let entry = self.choices.entry_at(id);
            Some(entry.duplicate())
        } else {
            let idx = self.selected_index;
            self.log_internal_error(InternalError::SelectionIndexOutOfBounds(idx));
            None
        }
    }

    /// Append a character to the query: clears the error log, recomputes the
    /// match list and clamps the cursor. Always signals a redraw, because the
    /// highlighted characters change even when the result list does not.
    pub fn on_user_input(&mut self, ch: char) -> (r: PluginUpdateLoop)
        requires
            old(self).wf(),
        ensures
            final(self).wf(),
            final(self).query() == old(self).query().push(ch),
            final(self).candidates() == old(self).candidates(),
            final(self).candidate_order() == old(self).candidate_order(),
            final(self).error_log() == Seq::<PluginError>::empty(),
            final(self).match_list() == apply_matches(
                final(self).query(),
                final(self).candidates(),
                final(self).candidate_order(),
            ),
            final(self).cursor() == clamp_spec(
                old(self).cursor(),
                final(self).match_list().len() as int,
            ),
            r == PluginUpdateLoop::MarkDirty,
    {
        self.clear_errors();
        self.user_input.push(ch);
        self.invalidate_matches();
        PluginUpdateLoop::MarkDirty
    }

    /// Remove the last query character, if any: clears the error log and, when
    /// a character was removed, recomputes the match list and clamps the
    /// cursor.
    pub fn remove_trailing_char(&mut self) -> (r: PluginUpdateLoop)
        requires
            old(self).wf(),
        ensures
            final(self).wf(),
            final(self).candidates() == old(self).candidates(),
            final(self).candidate_order() == old(self).candidate_order(),
            final(self).error_log() == Seq::<PluginError>::empty(),
            old(self).query().len() == 0 ==> {
                &&& final(self).query() == old(self).query()
                &&& final(self).match_list() == old(self).match_list()
                &&& final(self).cursor() == old(self).cursor()
            },
            old(self).query().len() > 0 ==> {
                &&& final(self).query() == old(self).query().drop_last()
                &&& final(self).match_list() == apply_matches(
                    final(self).query(),
                    final(self).candidates(),
                    final(self).candidate_order(),
                )
                &&& final(self).cursor() == clamp_spec(
                    old(self).cursor(),
                    final(self).match_list().len() as int,
                )
            },
            old(self).query().len() > 0 && final(self).query().len() == 0
                ==> final(self).lists_every_candidate(),
            r == PluginUpdateLoop::MarkDirty,
    {
        let update = self.clear_errors();
        match self.user_input.pop() {
            Option::Some(_) => {
                self.invalidate_matches();
                PluginUpdateLoop::MarkDirty
            },
            Option::None => update,
        }
    }

    /// Empty the query: clears the error log and, when the query was
    /// non-empty, recomputes the match list — every candidate then appears in
    /// it — and clamps the cursor.
    pub fn clear_user_input(&mut self) -> (r: PluginUpdateLoop)
        requires
            old(self).wf(),
        ensures
            final(self).wf(),
            final(self).candidates() == old(self).candidates(),
            final(self).candidate_order() == old(self).candidate_order(),
            final(self).error_log() == Seq::<PluginError>::empty(),
            final(self).query() == Seq::<char>::empty(),
            old(self).query().len() == 0 ==> {
                &&& final(self).match_list() == old(self).match_list()
                &&& final(self).cursor() == old(self).cursor()
            },
            old(self).query().len() > 0 ==> {
                &&& final(self).match_list() == apply_matches(
                    Seq::<char>::empty(),
                    final(self).candidates(),
                    final(self).candidate_order(),
                )
                &&& final(self).lists_every_candidate()
                &&& final(self).cursor() == clamp_spec(
                    old(self).cursor(),
                    final(self).match_list().len() as int,
                )
            },
            r == PluginUpdateLoop::MarkDirty,
    {
        let update = self.clear_errors();
        if self.user_input.len() == 0 {
            proof {
                assert(self.query() =~= Seq::<char>::empty());
            }
            return update;
        }
        self.user_input.clear();
        self.invalidate_matches();
        proof {
            assert(self.query() =~= Seq::<char>::empty());
        }
        PluginUpdateLoop::MarkDirty
    }

    /// Move the selection one entry up, clamped at the top of the list. The
    /// error log is cleared.
    pub fn select_up(&mut self) -> (r: PluginUpdateLoop)
        requires
            old(self).wf(),
        ensures
            final(self).wf(),
            final(self).query() == old(self).query(),
            final(self).candidates() == old(self).candidates(),
            final(self).candidate_order() == old(self).candidate_order(),
            final(self).match_list() == old(self).match_list(),
            final(self).error_log() == Seq::<PluginError>::empty(),
            final(self).cursor() == (if old(self).cursor() > 0 {
                old(self).cursor() - 1
            } else {
                0
            }),
            r == PluginUpdateLoop::MarkDirty,
    {
        let update = self.clear_errors();
        let previous_index = self.selected_index;
        if self.selected_index > 0 {
            self.selected_index = self.selected_index - 1;
        }
        update.merge(PluginUpdateLoop::from_bool(previous_index != self.selected_index))
    }

    /// Move the selection one entry down, clamped at the bottom of the list
    /// (index `match_count - 1`, or 0 when the list is empty). The error log
    /// is cleared.
    pub fn select_down(&mut self) -> (r: PluginUpdateLoop)
        requires
            old(self).wf(),
        ensures
            final(self).wf(),
            final(self).query() == old(self).query(),
            final(self).candidates() == old(self).candidates(),
            final(self).candidate_order() == old(self).candidate_order(),
            final(self).match_list() == old(self).match_list(),
            final(self).error_log() == Seq::<PluginError>::empty(),
            final(self).cursor() == clamp_spec(
                old(self).cursor() + 1,
                old(self).match_list().len() as int,
            ),
            r == PluginUpdateLoop::MarkDirty,
    {
        let update = self.clear_errors();
        let previous_index = self.selected_index;
        let len = self.matches.len();
        if len == 0 {
            self.selected_index = 0;
        } else {
            let next = self.selected_index + 1;
            if next > len - 1 {
                self.selected_index = len - 1;
            } else {
                self.selected_index = next;
            }
        }
        update.merge(PluginUpdateLoop::from_bool(previous_index != self.selected_index))
    }

    /// Insert one candidate, deduplicating by its (override, path) key, then
    /// recompute the match list and clamp the cursor, whatever the query:
    /// the match list a reader sees is never stale. (Bursts of discovered
    /// candidates go through [`Self::add_choices`], which rescoreres once for
    /// the whole burst.)
    pub fn add_choice(&mut self, choice: PathEntry) -> (r: PluginUpdateLoop)
        requires
            old(self).wf(),
        ensures
            final(self).wf(),
            final(self).query() == old(self).query(),
            final(self).error_log() == old(self).error_log(),
            final(self).candidates() == spec_insert_arena(old(self).candidates(), choice@),
            final(self).match_list() == apply_matches(
                final(self).query(),
                final(self).candidates(),
                final(self).candidate_order(),
            ),
            final(self).cursor() == clamp_spec(
                old(self).cursor(),
                final(self).match_list().len() as int,
            ),
            final(self).query().len() == 0 ==> final(self).lists_every_candidate(),
            r == PluginUpdateLoop::MarkDirty,
    {
        self.choices.insert(choice);
        self.invalidate_matches();
        PluginUpdateLoop::MarkDirty
    }

    /// Insert a burst of candidates, deduplicating each, then recompute the
    /// match list once and clamp the cursor.
    pub fn add_choices(&mut self, choices: Vec<PathEntry>) -> (r: PluginUpdateLoop)
        requires
            old(self).wf(),
        ensures
            final(self).wf(),
            final(self).query() == old(self).query(),
            final(self).error_log() == old(self).error_log(),
            final(self).candidates() == spec_insert_seq(
                old(self).candidates(),
                choices@.map_values(|e: PathEntry| e@),
            ),
            final(self).match_list() == apply_matches(
                final(self).query(),
                final(self).candidates(),
                final(self).candidate_order(),
            ),
            final(self).cursor() == clamp_spec(
                old(self).cursor(),
                final(self).match_list().len() as int,
            ),
            final(self).query().len() == 0 ==> final(self).lists_every_candidate(),
            r == PluginUpdateLoop::MarkDirty,
    {
        let ghost vs = choices@.map_values(|e: PathEntry| e@);
        let mut i: usize = 0;
        proof {
            assert(vs.take(0) =~= Seq::<PathEntryView>::empty());
        }
        while i < choices.len()
            invariant
                0 <= i <= choices@.len(),
                vs == choices@.map_values(|e: PathEntry| e@),
                self.choices.wf(),
                self.choices.arena() == spec_insert_seq(old(self).candidates(), vs.take(i as int)),
                self.user_input == old(self).user_input,
                self.matches == old(self).matches,
                self.selected_index == old(self).selected_index,
                self.errors == old(self).errors,
                self.matcher == old(self).matcher,
            decreases choices@.len() - i,
        {
            let entry = choices[i].duplicate();
            self.choices.insert(entry);
            proof {
                assert(vs.take(i + 1 as int).drop_last() =~= vs.take(i as int));
                assert(vs.take(i + 1 as int).last() == vs[i as int]);
            }
            i = i + 1;
        }
        proof {
            assert(vs.take(choices@.len() as int) =~= vs);
        }
        self.invalidate_matches();
        PluginUpdateLoop::MarkDirty
    }

    /// How many candidates the store holds.
    pub fn choice_count(&self) -> (r: usize)
        ensures
            r as int == self.candidates().len(),
    {
        self.choices.len()
    }

    /// How many candidates match the query as of the last invalidation.
    /// Never more than [`Self::choice_count`].
    pub fn match_count(&self) -> (r: usize)
        requires
            self.wf(),
        ensures
            r as int == self.match_list().len(),
            r as int <= self.candidates().len(),
    {
        self.matches.len()
    }

    /// Resolve a match record's candidate identifier, as handed out in
    /// [`Match::choice`], to the candidate it refers to. Nothing is returned
    /// when the identifier does not resolve.
    pub fn candidate(&self, id: usize) -> (r: Option<&PathEntry>)
        ensures
            r is Some <==> (id as int) < self.candidates().len(),
            r is Some ==> r->0@ == self.candidates()[id as int],
    {
        self.choices.get(id)
    }

    /// The current match list, in the order the matcher produced it.
    pub fn matches(&self) -> (r: &Vec<Match>)
        ensures
            matches_view(r@) == self.match_list(),
    {
        &self.matches
    }

    /// Log a non-fatal error for the UI to surface.
    pub fn log_error(&mut self, error: PluginError) -> (r: PluginUpdateLoop)
        requires
            old(self).wf(),
        ensures
            final(self).wf(),
            final(self).query() == old(self).query(),
            final(self).candidates() == old(self).candidates(),
            final(self).candidate_order() == old(self).candidate_order(),
            final(self).match_list() == old(self).match_list(),
            final(self).cursor() == old(self).cursor(),
            final(self).error_log() == old(self).error_log().push(error),
            r == PluginUpdateLoop::MarkDirty,
    {
        self.errors.push(error);
        PluginUpdateLoop::MarkDirty
    }

    /// Log an engine-internal error.
    fn log_internal_error(&mut self, error: InternalError)
        ensures
            final(self).user_input == old(self).user_input,
            final(self).choices == old(self).choices,
            final(self).matches == old(self).matches,
            final(self).selected_index == old(self).selected_index,
            final(self).matcher == old(self).matcher,
            final(self).errors@ == old(self).errors@.push(PluginError::UnexpectedError(error)),
    {
        self.errors.push(PluginError::UnexpectedError(error));
    }

    /// Empty the error log.
    pub fn clear_errors(&mut self) -> (r: PluginUpdateLoop)
        ensures
            final(self).query() == old(self).query(),
            final(self).candidates() == old(self).candidates(),
            final(self).candidate_order() == old(self).candidate_order(),
            final(self).match_list() == old(self).match_list(),
            final(self).cursor() == old(self).cursor(),
            final(self).error_log() == Seq::<PluginError>::empty(),
            old(self).wf() ==> final(self).wf(),
            r == PluginUpdateLoop::MarkDirty,
    {
        self.errors.clear();
        proof {
            assert(self.error_log() =~= Seq::<PluginError>::empty());
        }
        PluginUpdateLoop::MarkDirty
    }

    /// The errors logged since the last clear.
    pub fn errors(&self) -> (r: &Vec<PluginError>)
        ensures
            r@ == self.error_log(),
    {
        &self.errors
    }
}

} // verus!
