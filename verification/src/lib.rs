//! A multi-rate dataflow execution engine for closed-loop structural-control
//! simulation of a segmented-mirror telescope, together with the
//! seven-segment mirror controller aggregate.
//!
//! Independently clocked components (signal sources, smoothers, merge nodes,
//! controllers, a logger) exchange fixed-length integer sample vectors over a
//! directed graph with fan-out, rate conversion and bootstrap (pre-seeded)
//! edges; a single scheduler validates the graph and drives it forward a fixed
//! number of discrete ticks.

use vstd::prelude::*;

pub mod errors;
pub mod graph;
pub mod node;
pub mod payload;
pub mod segments;

verus! {

} // verus!
