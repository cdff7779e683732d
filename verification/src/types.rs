//! The data model of the fractal tree.
//!
//! Every `u64` field is the bit pattern of an IEEE-754 double (see
//! `float_bits`). Depths are plain integers: the root branch has depth 0
//! and each child is one deeper.

use vstd::prelude::*;

verus! {

/// One directed line segment of the tree: start point, end point, and the
/// recursion depth at which it was emitted. Immutable once created.
#[derive(Clone, Copy, Debug, PartialEq, Eq, Hash, PartialOrd, Ord, Structural)]
pub struct Branch {
    pub x1: u64,
    pub y1: u64,
    pub x2: u64,
    pub y2: u64,
    pub depth: usize,
}

/// A unit direction vector: the cosine and sine bit patterns of the angle a
/// branch points at. Carrying the direction instead of the angle lets the
/// recurrence advance with additions and multiplications alone.
#[derive(Clone, Copy, Debug, PartialEq, Eq, Structural)]
pub struct Direction {
    pub x: u64,
    pub y: u64,
}

/// The fixed rotation applied at every fork: the cosine and sine bit
/// patterns of the branching angle. One child's direction is the parent's
/// rotated counter-clockwise by this angle, the other's clockwise.
#[derive(Clone, Copy, Debug, PartialEq, Eq, Structural)]
pub struct Rotation {
    pub cos: u64,
    pub sin: u64,
}

/// One independently generatable subtree: the anchor point, length and
/// direction of its root branch, and that branch's depth. Fully
/// self-contained; consumed exactly once by the parallel executor.
#[derive(Clone, Copy, Debug, PartialEq, Eq, Structural)]
pub struct TaskParams {
    pub x: u64,
    pub y: u64,
    pub length: u64,
    pub dir: Direction,
    pub depth: usize,
}

/// Generation parameters. `branch_angle` is in degrees and is carried for
/// the record only; the generation itself receives the angle as a
/// `Direction` and a `Rotation` computed from it by the caller.
#[derive(Clone, Copy, Debug, PartialEq, Eq, Structural)]
pub struct Parameters {
    pub trunk_length: u64,
    pub ratio: u64,
    pub branch_angle: u64,
    pub min_length: u64,
}

/// One cumulative snapshot: every branch of depth at most `iteration`,
/// flattened to endpoint 4-tuples, with its own count.
#[derive(Clone, Debug, PartialEq, Eq)]
pub struct Iteration {
    pub iteration: usize,
    pub branch_count: usize,
    pub branches: Vec<(u64, u64, u64, u64)>,
}

/// The aggregate outcome of one generation run.
#[derive(Clone, Debug, PartialEq, Eq)]
pub struct FractalResult {
    pub parameters: Parameters,
    pub execution_time_nanos: u64,
    pub total_branches: usize,
    pub max_depth: usize,
    pub iterations: Vec<Iteration>,
}

/// Why a generation run was refused or failed.
#[derive(Clone, Copy, Debug, PartialEq, Eq, Structural)]
pub enum GenError {
    /// A parameter was rejected: the trunk length, ratio or minimum length
    /// is not a positive finite double, or the ratio is not below 1, or the
    /// worker count is 0.
    InvalidParameters,
    /// The exact branch count would exceed what this crate's counters can
    /// hold: the length does not fall below the minimum within the
    /// supported number of levels.
    TooDeep,
    /// The worker pool could not be built.
    WorkerPool,
}

} // verus!
