//! Incremental, non-backtracking tiling of a rectangular grid with modules
//! whose placement is constrained by their four cardinal neighbours.
//!
//! A [`terrain::Terrain`] job is advanced one tick at a time with
//! [`terrain::Terrain::step`]; its grid is write-once, and its random draws
//! come from a generator the caller owns, so a fixed seed repeats a run.
use vstd::prelude::*;

pub mod grid;
pub mod adjacency;
pub mod random;
pub mod terrain;

verus! {

} // verus!
