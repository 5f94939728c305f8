//! Error taxonomy: construction-time validation errors, run-time transform
//! errors (fatal to a run), and the run-failure record that carries the
//! failing node and tick.

use vstd::prelude::*;

verus! {

/// A defect found while assembling or validating a graph.  Validation errors
/// are raised once, at build time, and never during a run.
#[derive(Clone, Copy, Debug, PartialEq, Eq, Structural)]
pub enum ValidationError {
    /// An input port declared by a node has no edge bound to it.
    UnconnectedInput { node: usize, port: usize },
    /// Two payload lengths that must agree do not.
    LengthMismatch { expected: usize, got: usize },
    /// A second edge was bound to an input port (inputs are single-writer).
    DuplicateConnection { node: usize, port: usize },
    /// The declared fan-out of an output port differs from the number of
    /// edges bound to it.
    InvalidMultiplex { node: usize, port: usize, declared: usize, bound: usize },
    /// The producer and consumer of an edge declare different tags.
    TagMismatch { node: usize, port: usize },
    /// The same-tick projection of the graph (bootstrap edges excluded) has a
    /// cycle, so no execution order exists.
    Cycle,
}

/// A defect in a node's own transform during a run.  Transform errors abort
/// the run at the tick where they arise.
#[derive(Clone, Copy, Debug, PartialEq, Eq, Structural)]
pub enum TransformError {
    /// A sample-vector operation left the representable range.
    Overflow,
    /// A segment id outside the valid range 1..=7 was dispatched.
    InvalidSegmentId { segment_id: u8 },
    /// A producer pushed onto a bounded edge whose slot was not yet drained;
    /// in this sequential scheduler the producer cannot be suspended, so the
    /// condition is surfaced instead of blocking.
    WouldBlock,
}

/// Why and where a run stopped: the failing node's index, the tick at which
/// it failed, and the transform error it raised.
#[derive(Clone, Copy, Debug, PartialEq, Eq, Structural)]
pub struct RunFailure {
    pub node: usize,
    pub tick: usize,
    pub error: TransformError,
}

} // verus!
