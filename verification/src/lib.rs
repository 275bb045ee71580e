//! An interactive incremental fuzzy-search session over filesystem paths.
//!
//! The heart of the crate is [`fuzzy_search_context::FuzzySearchContext`], a
//! single-owner state machine that owns a deduplicated candidate store, the
//! user's query buffer, the current ranked match list, a selection cursor and
//! a transient error log. Every external event (keystroke, discovered
//! candidate, navigation, reported error) is mediated into a state transition
//! plus a redraw signal, and the engine's invariants — cursor always in
//! range, never more matches than candidates — are proved to hold after each
//! transition.
//!
//! Fuzzy scoring itself is delegated to the `fuzzy_matcher` crate behind a
//! small trusted boundary in [`matcher`]; everything around that call is
//! verified.

pub mod chars;
pub mod errors;
pub mod fuzzy_search_context;
pub mod matcher;
pub mod path_entry;
pub mod protocol;
pub mod store;
pub mod update_loop;
