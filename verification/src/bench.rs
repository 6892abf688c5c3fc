//! What a benchmark run decides.
use vstd::prelude::*;

pub mod memory;
pub mod plan;
pub mod run_laws;

verus! {

} // verus!
