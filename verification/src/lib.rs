//! Binary branching fractal tree generation, with a verified split of the
//! work into independently generatable subtree tasks and a verified
//! aggregation of the per-task results.
//!
//! All geometry is IEEE-754 double precision. Because the verifier does not
//! reason about floating point, every coordinate, length and direction
//! component is carried as the 64-bit pattern of the double it encodes, and
//! the four arithmetic operations the recurrence needs (`+`, `-`, `*`, `<`)
//! are performed by a software implementation of IEEE-754 binary64 behind
//! trusted wrappers (see `float_bits`). The shape of the tree — which
//! branches exist, their depths, the branch count — is fully determined by
//! the bit-level model and is verified end to end.

pub mod aggregate;
pub mod float_bits;
pub mod executor;
pub mod runner;
pub mod splitter;
pub mod geometry;
pub mod types;

pub use aggregate::group_by_depth;
pub use aggregate::max_depth_of;
pub use geometry::count_branches;
pub use splitter::collect_tasks;
pub use geometry::generate_fractal_tree;
pub use runner::run_parallel;
pub use runner::run_sequential;
pub use types::Branch;
pub use types::Direction;
pub use types::FractalResult;
pub use types::GenError;
pub use types::Iteration;
pub use types::Parameters;
pub use types::Rotation;
pub use types::TaskParams;
