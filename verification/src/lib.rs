//! Search for low-cost assignments of symbols to physical keys on a
//! multi-layer keyboard.
//!
//! Costs are ergonomic penalties aggregated over observed n-gram statistics.
//! All cost arithmetic uses a fixed-point representation (see [`fixedpoint`]),
//! so that the whole evaluation pipeline is deterministic and verifiable.

use vstd::prelude::*;

pub mod cache;
pub mod evaluation;
pub mod evolution;
pub mod fixedpoint;
pub mod fxmap;
pub mod generator;
pub mod key;
pub mod layout;
pub mod metrics;
pub mod results;
pub mod sa;
pub mod text;
pub mod worst;

verus! {

} // verus!
