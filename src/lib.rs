//! Exploratory statistics over text-encoded tables: missing-value
//! accounting, column type inference, frequency summaries, missing-value
//! patterns, ranking, correlation-matrix assembly and plot geometry.
use vstd::prelude::*;

pub mod stats;
pub mod text;
pub mod types;
pub mod args;
pub mod correlation;
pub mod freq;
pub mod missing;
pub mod number;
pub mod plot;
pub mod rank;
pub mod reader;
pub mod utils;

verus! {

} // verus!
