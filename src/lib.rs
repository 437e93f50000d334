//! A backup engine: which paths a blacklist excludes, where each file goes,
//! how name collisions are resolved, and how the run is tallied and reported.
use vstd::prelude::*;

pub mod glob;
pub mod matcher;
pub mod text;
pub mod collision;
pub mod engine;

verus! {

} // verus!
