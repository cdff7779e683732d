//! The parallel executor: a fixed-size worker pool running one sequential
//! subtree generation per task, behind trusted wrappers over rayon, and
//! the wall-clock reading the runs report.

use vstd::prelude::*;
use rayon::iter::IntoParallelRefIterator;
use rayon::iter::ParallelIterator;
use crate::geometry::result_view;
use crate::geometry::subtree_result;
use crate::types::Branch;
use crate::types::GenError;
use crate::types::Rotation;
use crate::types::TaskParams;

verus! {

#[verifier::external_type_specification]
#[verifier::external_body]
pub struct ExThreadPool(rayon::ThreadPool);

#[verifier::external_type_specification]
#[verifier::external_body]
pub struct ExThreadPoolBuildError(rayon::ThreadPoolBuildError);

#[verifier::external_type_specification]
#[verifier::external_body]
pub struct ExInstant(std::time::Instant);

/// Relies on rayon's `ThreadPoolBuilder::num_threads` and `build`: a pool
/// of exactly `workers` threads, or the builder's error. Nothing is
/// assumed of which outcome occurs.
#[verifier::external_body]
pub(crate) fn build_pool(workers: usize) -> Result<rayon::ThreadPool, rayon::ThreadPoolBuildError> {
    rayon::ThreadPoolBuilder::new().num_threads(workers).build()
}

/// Relies on rayon's `ThreadPool::install`, `par_iter`, `map` and
/// `collect`: an unordered parallel map over the tasks, collected in task
/// order, each slot holding exactly what `generate_fractal_tree` returns
/// for its task. The tasks share no state; the closure only calls that
/// verified function.
#[verifier::external_body]
pub(crate) fn run_tasks(
    pool: &rayon::ThreadPool,
    tasks: &Vec<TaskParams>,
    ratio: u64,
    rot: Rotation,
    min_length: u64,
) -> (r: Vec<Result<Vec<Branch>, GenError>>)
    ensures
        r@.len() == tasks@.len(),
        forall|i: int|
            0 <= i < tasks@.len() ==> result_view(#[trigger] r@[i]) == subtree_result(
                tasks@[i].x,
                tasks@[i].y,
                tasks@[i].length,
                tasks@[i].dir,
                rot,
                ratio,
                min_length,
                tasks@[i].depth as nat,
            ),
{
    pool.install(|| {
        tasks.par_iter().map(
            |t|
                crate::geometry::generate_fractal_tree(
                    t.x,
                    t.y,
                    t.length,
                    t.dir,
                    ratio,
                    rot,
                    min_length,
                    t.depth,
                ),
        ).collect()
    })
}

/// Relies on `std::time::Instant::now`; the reading depends on the clock,
/// so nothing is assumed of it.
#[verifier::external_body]
pub(crate) fn clock_now() -> std::time::Instant {
    std::time::Instant::now()
}

/// Relies on `Instant::elapsed` and `Duration::as_nanos`: the nanoseconds
/// since `start`, truncated to 64 bits; the value depends on the clock, so
/// nothing is assumed of it.
#[verifier::external_body]
pub(crate) fn nanos_since(start: &std::time::Instant) -> u64 {
    start.elapsed().as_nanos() as u64
}

} // verus!
