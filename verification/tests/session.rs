use pathfinder::errors::{InternalError, PluginError};
use pathfinder::fuzzy_search_context::FuzzySearchContext;
use pathfinder::path_entry::PathEntry;
use pathfinder::update_loop::PluginUpdateLoop;

fn cv(s: &str) -> Vec<char> {
    s.chars().collect()
}

fn entry(path: &str) -> PathEntry {
    PathEntry::from_path(cv(path))
}

/// The display representations of the current matches, in order.
fn match_displays(session: &FuzzySearchContext) -> Vec<String> {
    session
        .matches()
        .iter()
        .map(|m| {
            session
                .candidate(m.choice)
                .expect("match must resolve")
                .repr()
                .iter()
                .collect::<String>()
        })
        .collect()
}

#[test]
fn scenario_query_filters_to_subsequence_matches() {
    let mut session = FuzzySearchContext::default();
    session.add_choices(vec![entry("abc"), entry("xyz"), entry("bca")]);

    assert_eq!(session.on_user_input('a'), PluginUpdateLoop::MarkDirty);
    assert_eq!(session.on_user_input('b'), PluginUpdateLoop::MarkDirty);

    // Only "abc" holds 'a' followed by 'b'; "bca" has them in the wrong
    // order and "xyz" has neither.
    assert_eq!(match_displays(&session), vec!["abc".to_string()]);
    assert_eq!(session.match_count(), 1);
    assert_eq!(session.choice_count(), 3);
}

#[test]
fn highlight_indices_are_the_matched_positions() {
    let mut session = FuzzySearchContext::default();
    session.add_choices(vec![entry("xaxbx")]);
    session.on_user_input('a');
    session.on_user_input('b');

    assert_eq!(session.match_count(), 1);
    assert_eq!(session.matches()[0].indices, vec![1, 3]);
}

#[test]
fn smart_case_matches_uppercase_candidate() {
    let mut session = FuzzySearchContext::default();
    session.add_choices(vec![entry("AB"), entry("zz")]);
    session.on_user_input('a');
    session.on_user_input('b');

    assert_eq!(match_displays(&session), vec!["AB".to_string()]);
    assert_eq!(session.matches()[0].indices, vec![0, 1]);
}

#[test]
fn scenario_move_selection_down_clamps_at_last_match() {
    let mut session = FuzzySearchContext::default();
    session.add_choices(vec![entry("a1"), entry("a2"), entry("a3")]);

    assert_eq!(session.match_count(), 3);
    session.select_down();
    session.select_down();
    assert_eq!(session.selected_index(), 2);

    // Already on the last entry: moving further stays there.
    assert_eq!(session.select_down(), PluginUpdateLoop::MarkDirty);
    assert_eq!(session.selected_index(), 2);
}

#[test]
fn select_up_clamps_at_zero() {
    let mut session = FuzzySearchContext::default();
    session.add_choices(vec![entry("a1"), entry("a2")]);

    session.select_down();
    assert_eq!(session.selected_index(), 1);
    session.select_up();
    assert_eq!(session.selected_index(), 0);
    session.select_up();
    assert_eq!(session.selected_index(), 0);
}

#[test]
fn selection_on_empty_list_stays_at_zero() {
    let mut session = FuzzySearchContext::default();
    session.select_down();
    assert_eq!(session.selected_index(), 0);
    session.select_up();
    assert_eq!(session.selected_index(), 0);
}

#[test]
fn scenario_unmatched_query_resets_cursor_and_resolution_fails() {
    let mut session = FuzzySearchContext::default();
    for path in ["p1", "p2", "p3", "p4", "p5"] {
        session.add_choice(entry(path));
    }
    assert_eq!(session.choice_count(), 5);

    session.on_user_input('z');

    assert_eq!(session.match_count(), 0);
    assert_eq!(session.selected_index(), 0);
    assert!(session.selected_match().is_none());
    assert!(matches!(
        session.errors().as_slice(),
        [PluginError::UnexpectedError(InternalError::SelectionIndexOutOfBounds(0))]
    ));
}

#[test]
fn scenario_query_mutation_clears_error_log() {
    let mut session = FuzzySearchContext::default();
    session.log_error(PluginError::UnknownPipeMessageError("E1".to_string()));
    assert_eq!(session.errors().len(), 1);

    session.on_user_input('x');

    assert!(session.errors().is_empty());
}

#[test]
fn empty_query_lists_every_candidate() {
    let mut session = FuzzySearchContext::default();
    for path in ["b", "a", "c", "d", "e"] {
        session.add_choice(entry(path));
    }

    assert_eq!(session.match_count(), 5);
    assert_eq!(
        match_displays(&session),
        vec![
            "a".to_string(),
            "b".to_string(),
            "c".to_string(),
            "d".to_string(),
            "e".to_string()
        ]
    );
    for m in session.matches() {
        assert!(m.indices.is_empty());
    }
}

#[test]
fn adding_a_candidate_updates_the_match_list_at_once() {
    let mut session = FuzzySearchContext::default();
    assert_eq!(session.match_count(), 0);

    session.add_choice(entry("fresh"));

    // The list is recomputed on insertion: no read ever sees a stale list.
    assert_eq!(session.match_count(), 1);
    assert_eq!(match_displays(&session), vec!["fresh".to_string()]);
}

#[test]
fn inserting_the_same_entry_twice_is_a_no_op() {
    let mut session = FuzzySearchContext::default();
    session.add_choice(PathEntry::new(cv("home"), cv("/home/user")));
    assert_eq!(session.choice_count(), 1);

    session.add_choice(PathEntry::new(cv("home"), cv("/home/user")));
    assert_eq!(session.choice_count(), 1);

    // A different override with the same path is a different key.
    session.add_choice(PathEntry::new(cv("other"), cv("/home/user")));
    assert_eq!(session.choice_count(), 2);
}

#[test]
fn matching_runs_on_the_display_override() {
    let mut session = FuzzySearchContext::default();
    session.add_choices(vec![
        PathEntry::new(cv("docs"), cv("/very/long/path/one")),
        PathEntry::new(cv("pics"), cv("/very/long/path/two")),
    ]);

    session.on_user_input('d');

    assert_eq!(match_displays(&session), vec!["docs".to_string()]);
    let selected = session.selected_match().expect("cursor sits on the match");
    assert_eq!(selected.path().iter().collect::<String>(), "/very/long/path/one");
}

#[test]
fn candidates_iterate_in_key_order() {
    let mut session = FuzzySearchContext::default();
    session.add_choices(vec![entry("pear"), entry("apple"), entry("quince")]);

    assert_eq!(
        match_displays(&session),
        vec!["apple".to_string(), "pear".to_string(), "quince".to_string()]
    );
}

#[test]
fn shrinking_match_list_clamps_cursor() {
    let mut session = FuzzySearchContext::default();
    session.add_choices(vec![entry("aa"), entry("ab"), entry("ac")]);
    session.select_down();
    session.select_down();
    assert_eq!(session.selected_index(), 2);

    // Narrow to a single match: the cursor must land on it.
    session.on_user_input('a');
    session.on_user_input('b');
    assert_eq!(session.match_count(), 1);
    assert_eq!(session.selected_index(), 0);
}

#[test]
fn clear_user_input_restores_the_full_list() {
    let mut session = FuzzySearchContext::default();
    session.add_choices(vec![entry("abc"), entry("xyz")]);
    session.on_user_input('a');
    assert_eq!(session.match_count(), 1);

    assert_eq!(session.clear_user_input(), PluginUpdateLoop::MarkDirty);
    assert!(session.user_input().is_empty());
    assert_eq!(session.match_count(), 2);
}

#[test]
fn delete_on_empty_query_only_clears_errors() {
    let mut session = FuzzySearchContext::default();
    session.add_choices(vec![entry("abc")]);
    session.log_error(PluginError::UnknownPipeMessageError("boom".to_string()));

    session.remove_trailing_char();

    assert!(session.errors().is_empty());
    assert!(session.user_input().is_empty());
    assert_eq!(session.match_count(), 1);
}

#[test]
fn resolve_selection_returns_the_selected_candidate() {
    let mut session = FuzzySearchContext::default();
    session.add_choices(vec![entry("alpha"), entry("beta")]);

    session.select_down();
    let selected = session.selected_match().expect("two matches exist");
    assert_eq!(selected.path().iter().collect::<String>(), "beta");
    assert!(session.errors().is_empty());
}

#[test]
fn update_loop_merge_is_dirty_when_either_is() {
    let dirty = PluginUpdateLoop::MarkDirty;
    let clean = PluginUpdateLoop::NoUpdate;
    assert_eq!(clean.merge(clean), clean);
    assert_eq!(clean.merge(dirty), dirty);
    assert_eq!(dirty.merge(clean), dirty);
    assert_eq!(dirty.merge(dirty), dirty);
    assert_eq!(PluginUpdateLoop::from_bool(true), dirty);
    assert_eq!(PluginUpdateLoop::from_bool(false), clean);
}
