//! The redraw signal returned by every state-mutating session operation.

use vstd::prelude::*;

verus! {

/// Tells the surrounding render loop whether the last operation changed
/// visible state. Signals compose with [`PluginUpdateLoop::merge`], so a
/// compound operation is dirty exactly when one of its steps was.
#[derive(Clone, Copy, Debug, PartialEq, Eq, Structural)]
pub enum PluginUpdateLoop {
    /// Visible state changed; the UI must be repainted.
    MarkDirty,
    /// Nothing visible changed; the frame can be reused.
    NoUpdate,
}

impl PluginUpdateLoop {
    /// What merging two signals yields: dirty if either side is dirty.
    pub open spec fn spec_merge(self, other: Self) -> Self {
        if self is MarkDirty || other is MarkDirty {
            PluginUpdateLoop::MarkDirty
        } else {
            PluginUpdateLoop::NoUpdate
        }
    }

    /// Combine the signals of two sub-steps.
    pub fn merge(self, other: Self) -> (r: Self)
        ensures
            r == self.spec_merge(other),
    {
        match self {
            PluginUpdateLoop::MarkDirty => PluginUpdateLoop::MarkDirty,
            PluginUpdateLoop::NoUpdate => other,
        }
    }

    /// The signal for a step that changed state exactly when `changed` holds.
    pub fn from_bool(changed: bool) -> (r: Self)
        ensures
            r == (if changed {
                PluginUpdateLoop::MarkDirty
            } else {
                PluginUpdateLoop::NoUpdate
            }),
    {
        if changed {
            PluginUpdateLoop::MarkDirty
        } else {
            PluginUpdateLoop::NoUpdate
        }
    }
}

/// Merging signals is associative, so a compound operation may fold the
/// signals of its sub-steps in any grouping.
pub proof fn lemma_merge_associative(a: PluginUpdateLoop, b: PluginUpdateLoop, c: PluginUpdateLoop)
    ensures
        a.spec_merge(b).spec_merge(c) == a.spec_merge(b.spec_merge(c)),
{
}

} // verus!
