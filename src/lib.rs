//! Phase lookup tables over permutation puzzles, and the prune-table contract
//! that an iterative-deepening search consumes.
use vstd::prelude::*;

pub mod lookup;
pub mod phase_laws;
pub mod phase_table;
pub mod prune_table;
pub mod puzzle;

verus! {

} // verus!
