//! The matching engine: a filter from (query, candidate store) to an ordered
//! list of match records with per-character highlight positions.
//!
//! Fuzzy scoring is done by `fuzzy_matcher`'s `SkimMatcherV2`. The calls into
//! that crate sit behind the two trusted items near the top of this module.
//! Which candidates match is the defined predicate
//! [`cheap_match_positions`] (a case-folded subsequence search, the same test
//! the matcher itself gates on); the scored highlight positions come from the
//! matcher and are checked, in verified code, to spell the query — a record
//! never carries positions that do not.

use vstd::prelude::*;
use crate::path_entry::{spec_display, PathEntryView};
use crate::store::CandidateStore;

verus! {

/// What `SkimMatcherV2::fuzzy_indices` returns for a text and a pattern:
/// nothing when the pattern does not fuzzy-match the text, otherwise the
/// matched character positions. The matcher is built afresh for every call
/// (see [`skim_fuzzy_indices`]), so this is a function of the two character
/// sequences alone; the scoring policy behind it is the matcher's own.
pub uninterp spec fn fuzzy_match_of(text: Seq<char>, pattern: Seq<char>) -> Option<Seq<usize>>;

/// Whether `c` is an ASCII upper-case letter.
pub open spec fn is_ascii_upper(c: char) -> bool {
    65 <= (c as u32) && (c as u32) <= 90
}

/// `c` folded to ASCII lower case, as a code point; the folding the matcher
/// applies when it ignores case.
pub open spec fn ascii_fold(c: char) -> int {
    if is_ascii_upper(c) {
        (c as u32) + 32
    } else {
        (c as u32) as int
    }
}

/// The matcher's smart case: matching is case-sensitive exactly when the
/// pattern holds an ASCII upper-case letter.
pub open spec fn pattern_case_sensitive(pattern: Seq<char>) -> bool {
    exists|i: int| 0 <= i < pattern.len() && is_ascii_upper(#[trigger] pattern[i])
}

/// Whether a text character matches a pattern character, under the given
/// case sensitivity.
pub open spec fn char_matches(t: char, p: char, cs: bool) -> bool {
    if cs {
        t == p
    } else {
        ascii_fold(t) == ascii_fold(p)
    }
}

/// The leftmost embedding of `pattern` into `text` from position `i` on:
/// each pattern character is matched at the first position that fits. This
/// succeeds exactly when some embedding exists, and is the test the matcher
/// itself gates on before scoring.
pub open spec fn greedy_from(text: Seq<char>, pattern: Seq<char>, cs: bool, i: int) -> Option<
    Seq<usize>,
>
    decreases text.len() - i,
{
    if pattern.len() == 0 {
        Option::Some(Seq::empty())
    } else if i >= text.len() {
        Option::None
    } else if char_matches(text[i], pattern[0], cs) {
        match greedy_from(text, pattern.drop_first(), cs, i + 1) {
            Option::Some(rest) => Option::Some(seq![i as usize] + rest),
            Option::None => Option::None,
        }
    } else {
        greedy_from(text, pattern, cs, i + 1)
    }
}

/// The leftmost case-folded embedding of the whole pattern, if any: whether a
/// candidate matches a query at all.
pub open spec fn cheap_match_positions(text: Seq<char>, pattern: Seq<char>, cs: bool) -> Option<
    Seq<usize>,
> {
    greedy_from(text, pattern, cs, 0)
}

/// Positions that spell the pattern: one strictly ascending, in-bounds text
/// position per pattern character, each matching its character under the
/// given case sensitivity.
pub open spec fn spells_pattern(
    positions: Seq<usize>,
    text: Seq<char>,
    pattern: Seq<char>,
    cs: bool,
) -> bool {
    &&& positions.len() == pattern.len()
    &&& forall|k: int| 0 <= k < positions.len() ==> (#[trigger] positions[k] as int) < text.len()
    &&& forall|k: int, l: int| 0 <= k < l < positions.len() ==> positions[k] < positions[l]
    &&& forall|k: int|
        0 <= k < positions.len() ==> char_matches(
            text[#[trigger] positions[k] as int],
            pattern[k],
            cs,
        )
}

/// A successful greedy embedding spells the pattern, and starts no earlier
/// than the position it was searched from.
pub proof fn lemma_greedy_spells(text: Seq<char>, pattern: Seq<char>, cs: bool, i: int)
    requires
        0 <= i <= text.len(),
        text.len() <= usize::MAX,
        greedy_from(text, pattern, cs, i) is Some,
    ensures
        spells_pattern(greedy_from(text, pattern, cs, i)->0, text, pattern, cs),
        forall|k: int|
            0 <= k < greedy_from(text, pattern, cs, i)->0.len() ==> i <= (#[trigger] greedy_from(
                text,
                pattern,
                cs,
                i,
            )->0[k] as int),
    decreases text.len() - i,
{
    let ps = greedy_from(text, pattern, cs, i)->0;
    if pattern.len() == 0 {
    } else if char_matches(text[i], pattern[0], cs) && greedy_from(
        text,
        pattern.drop_first(),
        cs,
        i + 1,
    ) is Some {
        lemma_greedy_spells(text, pattern.drop_first(), cs, i + 1);
        let rest = greedy_from(text, pattern.drop_first(), cs, i + 1)->0;
        assert(ps == seq![i as usize] + rest);
        assert(ps[0] == i as usize);
        assert(forall|k: int| 1 <= k < ps.len() ==> ps[k] == rest[k - 1]);
        assert(forall|k: int| 1 <= k < ps.len() ==> pattern[k] == pattern.drop_first()[k - 1]);
    } else {
        lemma_greedy_spells(text, pattern, cs, i + 1);
    }
}

/// A pattern with a character that matches no text character has no
/// embedding at all.
pub proof fn lemma_unmatchable_char(text: Seq<char>, pattern: Seq<char>, cs: bool, j: int)
    requires
        text.len() <= usize::MAX,
        0 <= j < pattern.len(),
        forall|i: int| 0 <= i < text.len() ==> !char_matches(#[trigger] text[i], pattern[j], cs),
    ensures
        cheap_match_positions(text, pattern, cs) is None,
{
    if cheap_match_positions(text, pattern, cs) is Some {
        lemma_greedy_spells(text, pattern, cs, 0);
        let ps = cheap_match_positions(text, pattern, cs)->0;
        assert(char_matches(text[ps[j] as int], pattern[j], cs));
    }
}

/// Ceiling on the score matrix's cell count — one cell per (pattern, text)
/// character pair. Keeping the count below this keeps the matcher's
/// single-word cell indexing from wrapping, even where the word is 32 bits.
pub const MAX_MATCH_AREA: u64 = 0x80000000;

/// Whether a (text, pattern) pair may be handed to the matcher: an empty
/// pattern always may (the matcher answers it without building a matrix),
/// anything else only while the matrix stays below [`MAX_MATCH_AREA`] cells.
pub open spec fn can_match(text: Seq<char>, pattern: Seq<char>) -> bool {
    pattern.len() == 0 || (text.len() + 1) * (pattern.len() + 1) < MAX_MATCH_AREA
}

/// Relies on `fuzzy_matcher::skim::SkimMatcherV2::default` and
/// `SkimMatcherV2::fuzzy_indices` (through the crate's `FuzzyMatcher`
/// trait). The matcher is built afresh for the call, so its per-thread
/// scratch buffers start empty and the answer is a function of the two
/// character sequences alone, under the default smart-case configuration.
/// It accepts exactly the pairs whose pattern embeds into the text as a
/// case-folded subsequence (its `cheap_matches` gate, with case sensitivity
/// derived from the pattern); an empty pattern matches everything with no
/// positions; on a match the backtracked positions are strictly ascending
/// character positions into the text. The score is discarded.
#[verifier::external_body]
fn skim_fuzzy_indices(text: &Vec<char>, pattern: &Vec<char>) -> (r: Option<Vec<usize>>)
    requires
        can_match(text@, pattern@),
    ensures
        r is Some <==> fuzzy_match_of(text@, pattern@) is Some,
        r is Some <==> cheap_match_positions(
            text@,
            pattern@,
            pattern_case_sensitive(pattern@),
        ) is Some,
        r is Some ==> r->0@ == fuzzy_match_of(text@, pattern@)->0,
        pattern@.len() == 0 ==> r is Some && r->0@ == Seq::<usize>::empty(),
        r is Some ==> forall|i: int, j: int|
            0 <= i < j < r->0@.len() ==> r->0@[i] < r->0@[j],
        r is Some ==> forall|i: int| 0 <= i < r->0@.len() ==> (r->0@[i] as int) < text@.len(),
{
    let matcher = fuzzy_matcher::skim::SkimMatcherV2::default();
    let t: String = text.iter().collect();
    let p: String = pattern.iter().collect();
    fuzzy_matcher::FuzzyMatcher::fuzzy_indices(&matcher, &t, &p).map(|scored| scored.1)
}

/// Whether a text character matches a pattern character.
fn chars_match(t: char, p: char, cs: bool) -> (r: bool)
    ensures
        r == char_matches(t, p, cs),
{
    if cs {
        t == p
    } else {
        let tu = t as u32;
        let pu = p as u32;
        let tf: u32 = if 65 <= tu && tu <= 90 {
            tu + 32
        } else {
            tu
        };
        let pf: u32 = if 65 <= pu && pu <= 90 {
            pu + 32
        } else {
            pu
        };
        tf == pf
    }
}

/// The matcher's smart case, computed over the query.
fn query_case_sensitive(pattern: &Vec<char>) -> (r: bool)
    ensures
        r == pattern_case_sensitive(pattern@),
{
    let mut i: usize = 0;
    while i < pattern.len()
        invariant
            0 <= i <= pattern@.len(),
            forall|j: int| 0 <= j < i ==> !is_ascii_upper(#[trigger] pattern@[j]),
        decreases pattern@.len() - i,
    {
        let cu = pattern[i] as u32;
        if 65 <= cu && cu <= 90 {
            proof {
                assert(is_ascii_upper(pattern@[i as int]));
            }
            return true;
        }
        i = i + 1;
    }
    false
}

/// Whether `positions` spell `pattern` inside `text`.
fn indices_spell(positions: &Vec<usize>, text: &Vec<char>, pattern: &Vec<char>, cs: bool) -> (r:
    bool)
    ensures
        r == spells_pattern(positions@, text@, pattern@, cs),
{
    if positions.len() != pattern.len() {
        return false;
    }
    let mut k: usize = 0;
    while k < positions.len()
        invariant
            positions@.len() == pattern@.len(),
            0 <= k <= positions@.len(),
            forall|j: int| 0 <= j < k ==> (#[trigger] positions@[j] as int) < text@.len(),
            forall|j: int, l: int| 0 <= j < l < k ==> positions@[j] < positions@[l],
            forall|j: int|
                0 <= j < k ==> char_matches(text@[#[trigger] positions@[j] as int], pattern@[j], cs),
        decreases positions@.len() - k,
    {
        let pos = positions[k];
        if pos >= text.len() {
            return false;
        }
        if k > 0 && positions[k - 1] >= pos {
            return false;
        }
        if !chars_match(text[pos], pattern[k], cs) {
            return false;
        }
        proof {
            assert forall|j: int, l: int| 0 <= j < l < k + 1 implies positions@[j] < positions@[l] by {
                if l == k as int && j < k - 1 {
                    assert(positions@[j] < positions@[k - 1]);
                }
            }
        }
        k = k + 1;
    }
    true
}

/// Turn a prefix of already-fixed positions into the whole answer.
spec fn prepend_opt(pre: Seq<usize>, o: Option<Seq<usize>>) -> Option<Seq<usize>> {
    match o {
        Option::Some(rest) => Option::Some(pre + rest),
        Option::None => Option::None,
    }
}

/// The leftmost case-folded embedding of `pattern` into `text`, if any;
/// computes [`cheap_match_positions`].
fn greedy_positions(text: &Vec<char>, pattern: &Vec<char>, cs: bool) -> (r: Option<Vec<usize>>)
    ensures
        r is Some <==> cheap_match_positions(text@, pattern@, cs) is Some,
        r is Some ==> r->0@ == cheap_match_positions(text@, pattern@, cs)->0,
{
    let mut result: Vec<usize> = Vec::new();
    let mut p: usize = 0;
    let mut i: usize = 0;
    proof {
        assert(pattern@.skip(0) =~= pattern@);
        assert(result@ + greedy_from(text@, pattern@, cs, 0)->0 =~= greedy_from(
            text@,
            pattern@,
            cs,
            0,
        )->0);
        assert(cheap_match_positions(text@, pattern@, cs) == prepend_opt(
            result@,
            greedy_from(text@, pattern@.skip(p as int), cs, i as int),
        ));
    }
    while i < text.len()
        invariant
            0 <= p <= pattern@.len(),
            0 <= i <= text@.len(),
            cheap_match_positions(text@, pattern@, cs) == prepend_opt(
                result@,
                greedy_from(text@, pattern@.skip(p as int), cs, i as int),
            ),
        decreases text@.len() - i,
    {
        if p == pattern.len() {
            proof {
                assert(pattern@.skip(p as int) =~= Seq::<char>::empty());
                assert(result@ + Seq::<usize>::empty() =~= result@);
            }
            return Some(result);
        }
        let ghost sp = pattern@.skip(p as int);
        proof {
            assert(sp.len() == pattern@.len() - p);
            assert(sp[0] == pattern@[p as int]);
            assert(sp.drop_first() =~= pattern@.skip(p + 1 as int));
        }
        let c = text[i];
        let pc = pattern[p];
        if chars_match(c, pc, cs) {
            let ghost old_result = result@;
            result.push(i);
            proof {
                let tail = greedy_from(text@, sp.drop_first(), cs, i + 1 as int);
                assert(greedy_from(text@, sp, cs, i as int) == prepend_opt(seq![i as usize], tail))
                    by {
                    if tail is Some {
                        assert(seq![i as usize] + tail->0 =~= seq![i as usize] + tail->0);
                    }
                }
                if tail is Some {
                    assert(old_result + (seq![i as usize] + tail->0) =~= result@ + tail->0);
                }
                assert(prepend_opt(old_result, prepend_opt(seq![i as usize], tail)) == prepend_opt(
                    result@,
                    tail,
                ));
            }
            p = p + 1;
            i = i + 1;
        } else {
            proof {
                assert(greedy_from(text@, sp, cs, i as int) == greedy_from(
                    text@,
                    sp,
                    cs,
                    i + 1 as int,
                ));
            }
            i = i + 1;
        }
    }
    if p == pattern.len() {
        proof {
            assert(pattern@.skip(p as int) =~= Seq::<char>::empty());
            assert(result@ + Seq::<usize>::empty() =~= result@);
        }
        return Some(result);
    }
    proof {
        assert(pattern@.skip(p as int).len() > 0);
        assert(greedy_from(text@, pattern@.skip(p as int), cs, i as int) is None);
    }
    None
}

/// The highlight positions a match record carries: the matcher's scored
/// positions when they spell the query, the leftmost embedding otherwise.
/// (The matcher's backtrack is not relied on to be consistent; the record's
/// positions always spell the query.)
pub open spec fn match_positions_of(text: Seq<char>, pattern: Seq<char>) -> Seq<usize> {
    let cs = pattern_case_sensitive(pattern);
    let scored = fuzzy_match_of(text, pattern)->0;
    if spells_pattern(scored, text, pattern, cs) {
        scored
    } else {
        cheap_match_positions(text, pattern, cs)->0
    }
}

/// One match of the current query: the matched candidate's stable identifier
/// in the store's arena, plus the character positions of its display
/// representation that the query matched, for highlighting.
pub struct Match {
    /// Stable identifier of the matched candidate.
    pub choice: usize,
    /// Strictly ascending character positions into the candidate's display
    /// representation, spelling the query.
    pub indices: Vec<usize>,
}

/// The mathematical value of a [`Match`].
pub struct MatchView {
    pub choice: usize,
    pub indices: Seq<usize>,
}

impl View for Match {
    type V = MatchView;

    open spec fn view(&self) -> MatchView {
        MatchView { choice: self.choice, indices: self.indices@ }
    }
}

/// The values of a list of match records.
pub open spec fn matches_view(ms: Seq<Match>) -> Seq<MatchView> {
    ms.map_values(|m: Match| m@)
}

/// A match record that is well formed against an arena: its identifier
/// resolves, and its highlight positions are strictly ascending valid
/// character positions of the candidate's display representation.
pub open spec fn match_wf(m: MatchView, arena: Seq<PathEntryView>) -> bool {
    &&& (m.choice as int) < arena.len()
    &&& forall|i: int, j: int| 0 <= i < j < m.indices.len() ==> m.indices[i] < m.indices[j]
    &&& forall|i: int|
        0 <= i < m.indices.len() ==> (m.indices[i] as int) < spec_display(
            arena[m.choice as int],
        ).len()
}

/// A match record whose highlight positions spell the query inside its
/// candidate's display representation, up to the matcher's case folding.
pub open spec fn match_spells_query(
    m: MatchView,
    arena: Seq<PathEntryView>,
    query: Seq<char>,
) -> bool {
    &&& (m.choice as int) < arena.len()
    &&& spells_pattern(
        m.indices,
        spec_display(arena[m.choice as int]),
        query,
        pattern_case_sensitive(query),
    )
}

/// The match list for a query over the candidates listed by `order` (arena
/// identifiers, walked front to back): every candidate whose display embeds
/// the query as a case-folded subsequence contributes one record, in the
/// order walked; the rest are dropped.
pub open spec fn apply_matches(
    input: Seq<char>,
    arena: Seq<PathEntryView>,
    order: Seq<usize>,
) -> Seq<MatchView>
    decreases order.len(),
{
    if order.len() == 0 {
        Seq::empty()
    } else {
        let prefix = apply_matches(input, arena, order.drop_last());
        let id = order.last();
        if (id as int) < arena.len() && can_match(spec_display(arena[id as int]), input)
            && cheap_match_positions(
            spec_display(arena[id as int]),
            input,
            pattern_case_sensitive(input),
        ) is Some {
            prefix.push(
                MatchView {
                    choice: id,
                    indices: match_positions_of(spec_display(arena[id as int]), input),
                },
            )
        } else {
            prefix
        }
    }
}

/// A query never yields more matches than there are candidates walked.
pub proof fn lemma_apply_matches_len(
    input: Seq<char>,
    arena: Seq<PathEntryView>,
    order: Seq<usize>,
)
    ensures
        apply_matches(input, arena, order).len() <= order.len(),
    decreases order.len(),
{
    if order.len() > 0 {
        lemma_apply_matches_len(input, arena, order.drop_last());
    }
}

/// A query with a character that appears (case-folded) in no candidate's
/// display representation matches nothing at all.
pub proof fn lemma_apply_matches_empty(
    input: Seq<char>,
    arena: Seq<PathEntryView>,
    order: Seq<usize>,
    j: int,
)
    requires
        0 <= j < input.len(),
        forall|id: int, i: int|
            0 <= id < arena.len() && 0 <= i < spec_display(#[trigger] arena[id]).len()
                ==> !char_matches(
                #[trigger] spec_display(arena[id])[i],
                input[j],
                pattern_case_sensitive(input),
            ),
        forall|i: int| 0 <= i < arena.len() ==> spec_display(#[trigger] arena[i]).len() <= usize::MAX,
    ensures
        apply_matches(input, arena, order).len() == 0,
    decreases order.len(),
{
    if order.len() > 0 {
        lemma_apply_matches_empty(input, arena, order.drop_last(), j);
        let id = order.last();
        if (id as int) < arena.len() {
            let text = spec_display(arena[id as int]);
            assert(forall|i: int|
                0 <= i < text.len() ==> !char_matches(
                    #[trigger] text[i],
                    input[j],
                    pattern_case_sensitive(input),
                ));
            lemma_unmatchable_char(text, input, pattern_case_sensitive(input), j);
        }
    }
}

/// Matches candidates against the user input with the default scoring
/// configuration.
pub struct FuzzyMatcher {}

impl FuzzyMatcher {
    /// A matcher with the default scoring configuration.
    pub fn new() -> (r: Self) {
        FuzzyMatcher {}
    }

    /// Run the query over every candidate of the store, in key order, and
    /// collect the match records. With an empty query every candidate
    /// matches, with no highlight positions; every record's positions spell
    /// the query.
    pub fn apply(&self, input: &Vec<char>, choices: &CandidateStore) -> (r: Vec<Match>)
        requires
            choices.wf(),
        ensures
            matches_view(r@) == apply_matches(input@, choices.arena(), choices.sorted_ids()),
            forall|k: int|
                0 <= k < r@.len() ==> match_wf(#[trigger] matches_view(r@)[k], choices.arena()),
            forall|k: int|
                0 <= k < r@.len() ==> match_spells_query(
                    #[trigger] matches_view(r@)[k],
                    choices.arena(),
                    input@,
                ),
            input@.len() == 0 ==> r@.len() == choices.sorted_ids().len(),
            input@.len() == 0 ==> forall|k: int|
                0 <= k < r@.len() ==> (#[trigger] r@[k]).choice == choices.sorted_ids()[k]
                    && r@[k].indices@.len() == 0,
    {
        let n = choices.len();
        let cs = query_case_sensitive(input);
        let mut r: Vec<Match> = Vec::new();
        let mut k: usize = 0;
        proof {
            assert(choices.sorted_ids().take(0) =~= Seq::<usize>::empty());
            assert(matches_view(r@) =~= Seq::<MatchView>::empty());
        }
        while k < n
            invariant
                choices.wf(),
                cs == pattern_case_sensitive(input@),
                n == choices.arena().len(),
                n == choices.sorted_ids().len(),
                0 <= k <= n,
                matches_view(r@) == apply_matches(
                    input@,
                    choices.arena(),
                    choices.sorted_ids().take(k as int),
                ),
                forall|j: int|
                    0 <= j < r@.len() ==> match_wf(#[trigger] matches_view(r@)[j], choices.arena()),
                forall|j: int|
                    0 <= j < r@.len() ==> match_spells_query(
                        #[trigger] matches_view(r@)[j],
                        choices.arena(),
                        input@,
                    ),
                input@.len() == 0 ==> r@.len() == k as int,
                input@.len() == 0 ==> forall|j: int|
                    0 <= j < r@.len() ==> (#[trigger] r@[j]).choice == choices.sorted_ids()[j]
                        && r@[j].indices@.len() == 0,
            decreases n - k,
        {
            let id = choices.sorted_id_at(k);
            let entry = choices.entry_at(id);
            let display = entry.repr();
            let ghost text = display@;
            proof {
                assert(display.len() == text.len());
            }
            let fits: bool = if input.len() == 0 {
                true
            } else if display.len() >= 0x7FFFFFFF || input.len() >= 0x7FFFFFFF {
                proof {
                    assert((text.len() + 1) * (input@.len() + 1) >= MAX_MATCH_AREA)
                        by (nonlinear_arith)
                        requires
                            text.len() + 1 >= 1 && input@.len() + 1 >= 1 && (text.len() + 1
                                >= 0x80000000 || input@.len() + 1 >= 0x80000000),
                    ;
                }
                false
            } else {
                proof {
                    assert((display.len() as u64 + 1) * (input.len() as u64 + 1) < 0x8000000000000000)
                        by (nonlinear_arith)
                        requires
                            display.len() as u64 <= 0x7FFFFFFF && input.len() as u64 <= 0x7FFFFFFF,
                    ;
                }
                (display.len() as u64 + 1) * (input.len() as u64 + 1) < 0x80000000u64
            };
            let opt: Option<Vec<usize>> = if fits {
                skim_fuzzy_indices(display, input)
            } else {
                None
            };
            match opt {
                Option::Some(indices) => {
                    let ok = indices_spell(&indices, display, input, cs);
                    let chosen: Vec<usize> = if ok {
                        indices
                    } else {
                        match greedy_positions(display, input, cs) {
                            Option::Some(g) => g,
                            Option::None => {
                                proof {
                                    assert(false);
                                }
                                Vec::new()
                            },
                        }
                    };
                    proof {
                        if !ok {
                            lemma_greedy_spells(text, input@, cs, 0);
                        }
                        assert(chosen@ == match_positions_of(text, input@));
                        assert(spells_pattern(chosen@, text, input@, cs));
                    }
                    r.push(Match { choice: id, indices: chosen });
                },
                Option::None => {},
            }
            proof {
                let taken = choices.sorted_ids().take(k + 1 as int);
                assert(taken.drop_last() =~= choices.sorted_ids().take(k as int));
                assert(taken.last() == choices.sorted_ids()[k as int]);
                assert(matches_view(r@) =~= apply_matches(input@, choices.arena(), taken));
            }
            k = k + 1;
        }
        proof {
            assert(choices.sorted_ids().take(n as int) =~= choices.sorted_ids());
        }
        r
    }
}

} // verus!
