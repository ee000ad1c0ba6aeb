//! Depth lower bounds for an iterative-deepening search.
use vstd::prelude::*;

use crate::phase_table::{PhaseLookupTable, PhasePatternIndex};

verus! {

/// A number of moves.
#[derive(Clone, Copy, PartialEq, Eq, Structural, Debug)]
pub struct Depth(pub usize);

/// A table of depth lower bounds, deepened as the search's depth bound grows.
pub trait PruneTable: Sized {
    /// The bound that `lookup` returns for an index.
    spec fn lookup_spec(&self, phase_pattern_index: PhasePatternIndex) -> nat;

    /// The distance that the bound for an index must not exceed.
    spec fn distance_spec(&self, phase_pattern_index: PhasePatternIndex) -> nat;

    /// The search depth up to which the table has been deepened.
    spec fn coverage(&self) -> nat;

    /// The table after `extend_for_search_depth(search_depth, _)`.
    spec fn deepened(&self, search_depth: nat) -> Self;

    /// A lower bound on the moves left from `phase_pattern_index`: it never
    /// exceeds the distance.
    fn lookup(&self, phase_pattern_index: PhasePatternIndex) -> (r: Depth)
        ensures
            r.0 as nat == self.lookup_spec(phase_pattern_index),
            r.0 as nat <= self.distance_spec(phase_pattern_index),
    ;

    /// Makes the bounds useful up to `search_depth`; `approximate_num_entries`
    /// is a sizing hint.
    fn extend_for_search_depth(&mut self, search_depth: Depth, approximate_num_entries: usize)
        ensures
            *final(self) == old(self).deepened(search_depth.0 as nat),
            search_depth.0 <= old(self).coverage() ==> *final(self) == *old(self),
    ;
}

/// Bounds taken from the exact depths of a phase lookup table, capped at the
/// depth the search has reached.
pub struct PhasePruneTable {
    pub exact_depths: Vec<usize>,
    pub covered: usize,
}

impl PhasePruneTable {
    /// A prune table over the exact depths of `table`, deepened to nothing yet.
    pub fn new(table: &PhaseLookupTable) -> (r: Self)
        ensures
            r.exact_depths@ == table.exact_depths@,
            r.covered == 0,
    {
        PhasePruneTable { exact_depths: table.exact_depths.clone(), covered: 0 }
    }
}

impl PruneTable for PhasePruneTable {
    open spec fn lookup_spec(&self, phase_pattern_index: PhasePatternIndex) -> nat {
        let i = phase_pattern_index.0 as int;
        if 0 <= i < self.exact_depths@.len() {
            if self.exact_depths@[i] <= self.covered {
                self.exact_depths@[i] as nat
            } else {
                self.covered as nat
            }
        } else {
            0
        }
    }

    /// The exact depth of the index, as the table recorded it; unknown indices
    /// claim nothing beyond 0.
    open spec fn distance_spec(&self, phase_pattern_index: PhasePatternIndex) -> nat {
        let i = phase_pattern_index.0 as int;
        if 0 <= i < self.exact_depths@.len() {
            self.exact_depths@[i] as nat
        } else {
            0
        }
    }

    open spec fn coverage(&self) -> nat {
        self.covered as nat
    }

    open spec fn deepened(&self, search_depth: nat) -> Self {
        if search_depth <= self.covered {
            *self
        } else {
            PhasePruneTable { covered: search_depth as usize, ..*self }
        }
    }

    fn lookup(&self, phase_pattern_index: PhasePatternIndex) -> (r: Depth) {
        if phase_pattern_index.0 < self.exact_depths.len() {
            let d = self.exact_depths[phase_pattern_index.0];
            if d <= self.covered {
                Depth(d)
            } else {
                Depth(self.covered)
            }
        } else {
            Depth(0)
        }
    }

    fn extend_for_search_depth(&mut self, search_depth: Depth, approximate_num_entries: usize) {
        if search_depth.0 > self.covered {
            self.covered = search_depth.0;
        }
    }
}

/// Deepening to a depth already covered changes no bound.
pub proof fn lemma_idempotent_deepening(t: PhasePruneTable, search_depth: nat)
    requires
        search_depth <= t.coverage(),
        search_depth <= usize::MAX,
    ensures
        forall|i: PhasePatternIndex| #[trigger] t.deepened(search_depth).lookup_spec(i)
            == t.lookup_spec(i),
{
}

} // verus!
