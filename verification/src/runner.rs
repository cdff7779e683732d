//! The generation entry points: parameter validation, the sequential run,
//! and the parallel run (split, execute, aggregate).
//!
//! Both runs report the same totals for the same parameters: their
//! contracts pin the total branch count, the maximum depth and the
//! snapshot sizes to the one canonical tree `tree_of`, whatever the worker
//! count or split depth.

use vstd::prelude::*;
use vstd::multiset::Multiset;
use vstd::seq_lib::lemma_multiset_commutative;
use vstd::arithmetic::power2::pow2;
use crate::aggregate::flat_branches;
use crate::aggregate::group_by_depth;
use crate::aggregate::group_views;
use crate::aggregate::lemma_max_depth_in_props;
use crate::aggregate::lemma_max_depth_multiset;
use crate::aggregate::lemma_snapshot_len_multiset;
use crate::aggregate::max_depth_in;
use crate::aggregate::max_depth_of;
use crate::aggregate::snapshot_at;
use crate::executor::build_pool;
use crate::executor::clock_now;
use crate::executor::nanos_since;
use crate::executor::run_tasks;
use crate::float_bits::lt_bits;
use crate::float_bits::lt_f;
use crate::float_bits::F64_ONE_BITS;
use crate::float_bits::F64_ZERO_BITS;
use crate::geometry::find_levels;
use crate::geometry::generate_fractal_tree;
use crate::geometry::lemma_levels_of_props;
use crate::geometry::lemma_subtree_depths;
use crate::geometry::lemma_subtree_size;
use crate::geometry::levels_of;
use crate::geometry::result_view;
use crate::geometry::subtree_seq;
use crate::splitter::collect_tasks;
use crate::splitter::frontier_branches;
use crate::splitter::lemma_split_covers_subtree;
use crate::splitter::lemma_split_tasks_generate;
use crate::splitter::split_depth_for;
use crate::types::Branch;
use crate::types::Direction;
use crate::types::FractalResult;
use crate::types::GenError;
use crate::types::Parameters;
use crate::types::Rotation;
use crate::types::TaskParams;

verus! {

/// Whether the parameters pass validation: trunk length, ratio and
/// minimum length strictly above 0.0 and the ratio strictly below 1.0
/// under IEEE-754 comparison (a NaN anywhere fails every comparison, so
/// it is rejected).
pub open spec fn valid_params(p: Parameters) -> bool {
    &&& lt_bits(F64_ZERO_BITS, p.trunk_length)
    &&& lt_bits(F64_ZERO_BITS, p.ratio)
    &&& lt_bits(p.ratio, F64_ONE_BITS)
    &&& lt_bits(F64_ZERO_BITS, p.min_length)
}

fn check_params(p: &Parameters) -> (ok: bool)
    ensures
        ok == valid_params(*p),
{
    lt_f(F64_ZERO_BITS, p.trunk_length) && lt_f(F64_ZERO_BITS, p.ratio) && lt_f(
        p.ratio,
        F64_ONE_BITS,
    ) && lt_f(F64_ZERO_BITS, p.min_length)
}

/// The canonical tree of a run: the subtree rooted at the origin with the
/// trunk length, spanning `k` levels.
pub open spec fn tree_of(p: Parameters, dir: Direction, rot: Rotation, k: nat) -> Seq<Branch> {
    subtree_seq(F64_ZERO_BITS, F64_ZERO_BITS, p.trunk_length, dir, rot, p.ratio, 0, k)
}

/// What every successful run reports, sequential or parallel: the total
/// branch count and maximum depth of the canonical tree, and, when
/// snapshots were requested, one snapshot per depth level from 0 to the
/// maximum depth inclusive (so a single empty snapshot for an empty
/// tree), each counting the tree's branches up to its depth.
pub open spec fn result_matches(
    res: FractalResult,
    p: Parameters,
    dir: Direction,
    rot: Rotation,
    k: nat,
    with_snapshots: bool,
) -> bool {
    let tree = tree_of(p, dir, rot, k);
    &&& res.parameters == p
    &&& res.total_branches + 1 == pow2(k)
    &&& res.max_depth as nat == (if k == 0 {
        0nat
    } else {
        (k - 1) as nat
    })
    &&& res.iterations@.len() == (if !with_snapshots {
        0int
    } else if k == 0 {
        1int
    } else {
        k as int
    })
    &&& (forall|d: int|
        0 <= d < res.iterations@.len() ==> {
            &&& (#[trigger] res.iterations@[d]).iteration == d
            &&& res.iterations@[d].branch_count == snapshot_at(tree, d).len()
            &&& res.iterations@[d].branches@.len() == snapshot_at(tree, d).len()
            &&& res.iterations@[d].branches@.to_multiset() == snapshot_at(tree, d).to_multiset()
        })
}

/// The maximum depth of a whole tree spanning `horizon` levels from the
/// root is the last level, or 0 when it spans none.
proof fn lemma_tree_max_depth(
    x: u64,
    y: u64,
    len: u64,
    dir: Direction,
    rot: Rotation,
    ratio: u64,
    horizon: nat,
)
    requires
        horizon <= usize::MAX,
    ensures
        max_depth_in(subtree_seq(x, y, len, dir, rot, ratio, 0, horizon)) == (if horizon == 0 {
            0nat
        } else {
            (horizon - 1) as nat
        }),
{
    let s = subtree_seq(x, y, len, dir, rot, ratio, 0, horizon);
    lemma_subtree_depths(x, y, len, dir, rot, ratio, 0, horizon);
    lemma_max_depth_in_props(s);
    if horizon > 0 {
        let w = choose|i: int| 0 <= i < s.len() && #[trigger] s[i].depth == horizon - 1;
        assert(s.len() > 0);
        let m = choose|i: int| 0 <= i < s.len() && #[trigger] s[i].depth == max_depth_in(s);
    }
}

/// The branches of the collected task results, in order, as one multiset.
pub open spec fn ok_msets(rs: Seq<Result<Vec<Branch>, GenError>>) -> Multiset<Branch>
    decreases rs.len(),
{
    if rs.len() == 0 {
        Multiset::empty()
    } else {
        (match rs[0] {
            Ok(v) => v@.to_multiset(),
            Err(_) => Multiset::empty(),
        }).add(ok_msets(rs.drop_first()))
    }
}

proof fn lemma_results_cover(
    rs: Seq<Result<Vec<Branch>, GenError>>,
    ts: Seq<TaskParams>,
    rot: Rotation,
    ratio: u64,
    horizon: nat,
)
    requires
        rs.len() == ts.len(),
        forall|i: int|
            0 <= i < ts.len() ==> result_view(#[trigger] rs[i]) == Ok::<Seq<Branch>, GenError>(
                subtree_seq(
                    ts[i].x,
                    ts[i].y,
                    ts[i].length,
                    ts[i].dir,
                    rot,
                    ratio,
                    ts[i].depth as nat,
                    horizon,
                ),
            ),
    ensures
        ok_msets(rs) == frontier_branches(ts, rot, ratio, horizon),
    decreases rs.len(),
{
    if rs.len() > 0 {
        assert(result_view(rs[0]) == Ok::<Seq<Branch>, GenError>(
            subtree_seq(
                ts[0].x,
                ts[0].y,
                ts[0].length,
                ts[0].dir,
                rot,
                ratio,
                ts[0].depth as nat,
                horizon,
            ),
        ));
        assert forall|i: int|
            0 <= i < ts.drop_first().len() implies result_view(#[trigger] rs.drop_first()[i])
            == Ok::<Seq<Branch>, GenError>(
            subtree_seq(
                ts.drop_first()[i].x,
                ts.drop_first()[i].y,
                ts.drop_first()[i].length,
                ts.drop_first()[i].dir,
                rot,
                ratio,
                ts.drop_first()[i].depth as nat,
                horizon,
            ),
        ) by {
            assert(rs.drop_first()[i] == rs[i + 1]);
            assert(ts.drop_first()[i] == ts[i + 1]);
        }
        lemma_results_cover(rs.drop_first(), ts.drop_first(), rot, ratio, horizon);
    }
}

/// The sequential run: validate, generate the whole tree in one
/// depth-first pass, and aggregate.
pub fn run_sequential(
    params: Parameters,
    dir: Direction,
    rot: Rotation,
    with_snapshots: bool,
) -> (r: Result<FractalResult, GenError>)
    ensures
        !valid_params(params) ==> r == Err::<FractalResult, GenError>(GenError::InvalidParameters),
        valid_params(params) ==> match levels_of(
            params.trunk_length,
            params.ratio,
            params.min_length,
        ) {
            Some(k) => r matches Ok(res) && result_matches(res, params, dir, rot, k, with_snapshots)
                && (forall|d: int|
                0 <= d < res.iterations@.len() ==> (#[trigger] res.iterations@[d]).branches@
                    == snapshot_at(tree_of(params, dir, rot, k), d)),
            None => r == Err::<FractalResult, GenError>(GenError::TooDeep),
        },
{
    if !check_params(&params) {
        return Err(GenError::InvalidParameters);
    }
    let t0 = clock_now();
    let gen = generate_fractal_tree(
        F64_ZERO_BITS,
        F64_ZERO_BITS,
        params.trunk_length,
        dir,
        params.ratio,
        rot,
        params.min_length,
        0,
    );
    proof {
        lemma_levels_of_props(params.trunk_length, params.ratio, params.min_length);
    }
    match gen {
        Err(e) => Err(e),
        Ok(branches) => {
            let nanos = nanos_since(&t0);
            let ghost k = levels_of(params.trunk_length, params.ratio, params.min_length)->Some_0;
            let ghost tree = tree_of(params, dir, rot, k);
            proof {
                lemma_subtree_size(
                    F64_ZERO_BITS,
                    F64_ZERO_BITS,
                    params.trunk_length,
                    dir,
                    rot,
                    params.ratio,
                    0,
                    k,
                );
                lemma_tree_max_depth(
                    F64_ZERO_BITS,
                    F64_ZERO_BITS,
                    params.trunk_length,
                    dir,
                    rot,
                    params.ratio,
                    k,
                );
            }
            let total = branches.len();
            let md = max_depth_of(&branches);
            let ghost branches_seq = branches@;
            let iterations = if with_snapshots {
                let mut gs: Vec<Vec<Branch>> = Vec::new();
                gs.push(branches);
                proof {
                    assert(group_views(gs@) =~= Seq::<Seq<Branch>>::empty().push(branches_seq));
                    Seq::<Seq<Branch>>::empty().lemma_flatten_push(branches_seq);
                    assert(flat_branches(gs@) =~= branches_seq);
                }
                group_by_depth(gs.as_slice())
            } else {
                Vec::new()
            };
            Ok(
                FractalResult {
                    parameters: params,
                    execution_time_nanos: nanos,
                    total_branches: total,
                    max_depth: md,
                    iterations,
                },
            )
        },
    }
}

/// The parallel run: validate, build the worker pool, split the tree at
/// the split depth (the policy depth for the worker count, unless
/// overridden), generate every frontier task on the pool, and aggregate
/// the upper branches with all per-task results.
pub fn run_parallel(
    params: Parameters,
    dir: Direction,
    rot: Rotation,
    workers: usize,
    split_override: Option<usize>,
    with_snapshots: bool,
) -> (r: Result<FractalResult, GenError>)
    ensures
        !(valid_params(params) && workers >= 1) ==> r == Err::<FractalResult, GenError>(
            GenError::InvalidParameters,
        ),
        valid_params(params) && workers >= 1 ==> match levels_of(
            params.trunk_length,
            params.ratio,
            params.min_length,
        ) {
            Some(k) => (r is Err ==> r == Err::<FractalResult, GenError>(GenError::WorkerPool)) && (
            r matches Ok(res) ==> result_matches(res, params, dir, rot, k, with_snapshots)),
            None => r == Err::<FractalResult, GenError>(GenError::TooDeep),
        },
{
    if workers == 0 {
        return Err(GenError::InvalidParameters);
    }
    if !check_params(&params) {
        return Err(GenError::InvalidParameters);
    }
    let k = match find_levels(params.trunk_length, params.ratio, params.min_length) {
        None => { return Err(GenError::TooDeep) },
        Some(k) => k,
    };
    proof {
        lemma_levels_of_props(params.trunk_length, params.ratio, params.min_length);
    }
    let pool = match build_pool(workers) {
        Err(_) => { return Err(GenError::WorkerPool) },
        Ok(p) => p,
    };
    let split = match split_override {
        Some(d) => d,
        None => split_depth_for(workers),
    };
    let t0 = clock_now();
    let mut merged: Vec<Branch> = Vec::new();
    let tasks = collect_tasks(
        &mut merged,
        F64_ZERO_BITS,
        F64_ZERO_BITS,
        params.trunk_length,
        dir,
        params.ratio,
        rot,
        params.min_length,
        0,
        split,
    );
    let ghost tree = tree_of(params, dir, rot, k as nat);
    proof {
        lemma_split_covers_subtree(
            F64_ZERO_BITS,
            F64_ZERO_BITS,
            params.trunk_length,
            dir,
            rot,
            params.ratio,
            params.min_length,
            0,
            split as nat,
            k as nat,
        );
        lemma_split_tasks_generate(
            F64_ZERO_BITS,
            F64_ZERO_BITS,
            params.trunk_length,
            dir,
            rot,
            params.ratio,
            params.min_length,
            0,
            split as nat,
            k as nat,
        );
    }
    let mut results = run_tasks(&pool, &tasks, params.ratio, rot, params.min_length);
    let nanos = nanos_since(&t0);
    proof {
        lemma_results_cover(results@, tasks@, rot, params.ratio, k as nat);
        assert(merged@.to_multiset().add(ok_msets(results@)) == tree.to_multiset());
    }
    while results.len() > 0
        invariant
            merged@.to_multiset().add(ok_msets(results@)) == tree.to_multiset(),
            forall|i: int| 0 <= i < results@.len() ==> (#[trigger] results@[i]) is Ok,
        decreases results@.len(),
    {
        let ghost results_pre = results@;
        let r0 = results.remove(0);
        proof {
            assert(results@ =~= results_pre.drop_first());
        }
        match r0 {
            Ok(mut v) => {
                proof {
                    broadcast use vstd::multiset::group_multiset_axioms;

                    lemma_multiset_commutative(merged@, v@);
                    assert((merged@ + v@).to_multiset().add(ok_msets(results@))
                        =~= merged@.to_multiset().add(ok_msets(results_pre)));
                }
                merged.append(&mut v);
            },
            Err(e) => {
                proof {
                    assert(results_pre[0] is Ok);
                    assert(false);
                }
                return Err(e);
            },
        }
    }
    proof {
        broadcast use vstd::multiset::group_multiset_axioms;

        assert(merged@.to_multiset() =~= tree.to_multiset());
        merged@.to_multiset_ensures();
        tree.to_multiset_ensures();
        lemma_subtree_size(
            F64_ZERO_BITS,
            F64_ZERO_BITS,
            params.trunk_length,
            dir,
            rot,
            params.ratio,
            0,
            k as nat,
        );
        lemma_max_depth_multiset(merged@, tree);
        lemma_tree_max_depth(
            F64_ZERO_BITS,
            F64_ZERO_BITS,
            params.trunk_length,
            dir,
            rot,
            params.ratio,
            k as nat,
        );
    }
    let total = merged.len();
    let md = max_depth_of(&merged);
    let ghost merged_seq = merged@;
    let iterations = if with_snapshots {
        let mut gs: Vec<Vec<Branch>> = Vec::new();
        gs.push(merged);
        proof {
            assert(group_views(gs@) =~= Seq::<Seq<Branch>>::empty().push(merged_seq));
            Seq::<Seq<Branch>>::empty().lemma_flatten_push(merged_seq);
            assert(flat_branches(gs@) =~= merged_seq);
        }
        let iters = group_by_depth(gs.as_slice());
        proof {
            assert forall|d: int|
                0 <= d < iters@.len() implies snapshot_at(merged_seq, d).len() == snapshot_at(
                tree,
                d,
            ).len() && snapshot_at(merged_seq, d).to_multiset() == snapshot_at(
                tree,
                d,
            ).to_multiset() by {
                lemma_snapshot_len_multiset(merged_seq, tree, d);
            }
        }
        iters
    } else {
        Vec::new()
    };
    Ok(
        FractalResult {
            parameters: params,
            execution_time_nanos: nanos,
            total_branches: total,
            max_depth: md,
            iterations,
        },
    )
}

} // verus!
