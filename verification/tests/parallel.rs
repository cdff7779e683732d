//! Tests of the task splitter, the parallel executor and the runs:
//! parallel generation must reproduce sequential generation exactly.

use fractal_tree::collect_tasks;
use fractal_tree::count_branches;
use fractal_tree::generate_fractal_tree;
use fractal_tree::run_parallel;
use fractal_tree::run_sequential;
use fractal_tree::Branch;
use fractal_tree::Direction;
use fractal_tree::GenError;
use fractal_tree::Parameters;
use fractal_tree::Rotation;

fn bits(x: f64) -> u64 {
    x.to_bits()
}

fn dir_up() -> Direction {
    let a = std::f64::consts::FRAC_PI_2;
    Direction { x: bits(a.cos()), y: bits(a.sin()) }
}

fn rot_for_deg(deg: f64) -> Rotation {
    let r = deg.to_radians();
    Rotation { cos: bits(r.cos()), sin: bits(r.sin()) }
}

fn params(trunk: f64, ratio: f64, angle_deg: f64, min: f64) -> Parameters {
    Parameters {
        trunk_length: bits(trunk),
        ratio: bits(ratio),
        branch_angle: bits(angle_deg),
        min_length: bits(min),
    }
}

#[test]
fn split_plus_tasks_equal_sequential_multiset() {
    // Walk the splitter by hand, generate every task sequentially, and
    // compare the combined branches with the undivided generation: the
    // same multiset, bit for bit.
    let (trunk, ratio, deg, min) = (100.0, 0.67, 30.0, 2.0);
    let rot = rot_for_deg(deg);
    let sequential = generate_fractal_tree(
        bits(0.0),
        bits(0.0),
        bits(trunk),
        dir_up(),
        bits(ratio),
        rot,
        bits(min),
        0,
    )
    .expect("sequential generation");
    for split_depth in [0usize, 1, 3, 5, 64] {
        let mut combined: Vec<Branch> = Vec::new();
        let tasks = collect_tasks(
            &mut combined,
            bits(0.0),
            bits(0.0),
            bits(trunk),
            dir_up(),
            bits(ratio),
            rot,
            bits(min),
            0,
            split_depth,
        );
        for t in &tasks {
            let sub = generate_fractal_tree(
                t.x,
                t.y,
                t.length,
                t.dir,
                bits(ratio),
                rot,
                bits(min),
                t.depth,
            )
            .expect("task generation");
            combined.extend_from_slice(&sub);
        }
        let mut left = sequential.clone();
        let mut right = combined;
        left.sort();
        right.sort();
        assert_eq!(left, right, "at split depth {split_depth}");
    }
}

#[test]
fn splitter_prunes_by_min_length_first() {
    // A node below the minimum length is pruned even above the split
    // depth: splitting never forces branches the threshold would prune.
    let mut upper: Vec<Branch> = Vec::new();
    let tasks = collect_tasks(
        &mut upper,
        bits(0.0),
        bits(0.0),
        bits(50.0),
        dir_up(),
        bits(0.67),
        rot_for_deg(30.0),
        bits(100.0),
        0,
        8,
    );
    assert!(upper.is_empty());
    assert!(tasks.is_empty());
}

#[test]
fn run_parallel_matches_run_sequential() {
    let p = params(100.0, 0.67, 30.0, 2.0);
    let seq = run_sequential(p, dir_up(), rot_for_deg(30.0), false).expect("sequential run");
    for workers in [1usize, 4, 8] {
        let par =
            run_parallel(p, dir_up(), rot_for_deg(30.0), workers, None, false).expect("parallel");
        assert_eq!(par.total_branches, seq.total_branches);
        assert_eq!(par.max_depth, seq.max_depth);
        assert_eq!(par.parameters, p);
    }
}

#[test]
fn split_depth_override_does_not_change_totals() {
    let p = params(100.0, 0.67, 30.0, 2.0);
    let seq = run_sequential(p, dir_up(), rot_for_deg(30.0), false).expect("sequential run");
    for split in [Some(0usize), Some(1), Some(4), Some(64)] {
        let par =
            run_parallel(p, dir_up(), rot_for_deg(30.0), 4, split, false).expect("parallel run");
        assert_eq!(par.total_branches, seq.total_branches);
        assert_eq!(par.max_depth, seq.max_depth);
    }
}

#[test]
fn benchmark_scenario_count_from_estimator() {
    // Trunk 100, ratio 0.67, branch angle 30 degrees, minimum length
    // 0.01: the estimator pins the deterministic total.
    assert_eq!(count_branches(bits(100.0), bits(0.67), bits(0.01)), Some(8388607));
}

#[test]
fn benchmark_scenario_sequential() {
    let p = params(100.0, 0.67, 30.0, 0.01);
    let res = run_sequential(p, dir_up(), rot_for_deg(30.0), false).expect("sequential run");
    assert_eq!(res.total_branches, 8388607);
    assert_eq!(res.max_depth, 22);
}

#[test]
fn benchmark_scenario_one_worker() {
    let p = params(100.0, 0.67, 30.0, 0.01);
    let res = run_parallel(p, dir_up(), rot_for_deg(30.0), 1, None, false).expect("parallel run");
    assert_eq!(res.total_branches, 8388607);
    assert_eq!(res.max_depth, 22);
}

#[test]
fn benchmark_scenario_four_workers() {
    let p = params(100.0, 0.67, 30.0, 0.01);
    let res = run_parallel(p, dir_up(), rot_for_deg(30.0), 4, None, false).expect("parallel run");
    assert_eq!(res.total_branches, 8388607);
    assert_eq!(res.max_depth, 22);
}

#[test]
fn benchmark_scenario_eight_workers() {
    let p = params(100.0, 0.67, 30.0, 0.01);
    let res = run_parallel(p, dir_up(), rot_for_deg(30.0), 8, None, false).expect("parallel run");
    assert_eq!(res.total_branches, 8388607);
    assert_eq!(res.max_depth, 22);
}

#[test]
fn trunk_at_min_is_single_branch_run() {
    let p = params(100.0, 0.67, 30.0, 100.0);
    let res = run_sequential(p, dir_up(), rot_for_deg(30.0), true).expect("sequential run");
    assert_eq!(res.total_branches, 1);
    assert_eq!(res.max_depth, 0);
    assert_eq!(res.iterations.len(), 1);
    assert_eq!(res.iterations[0].branch_count, 1);
}

#[test]
fn empty_tree_reports_zero_depth() {
    // Maximum depth of an empty result set is 0, not an error, and the
    // snapshot sequence runs from depth 0 to that maximum inclusive: one
    // empty snapshot.
    let p = params(50.0, 0.67, 30.0, 100.0);
    let seq = run_sequential(p, dir_up(), rot_for_deg(30.0), true).expect("sequential run");
    assert_eq!(seq.total_branches, 0);
    assert_eq!(seq.max_depth, 0);
    assert_eq!(seq.iterations.len(), 1);
    assert_eq!(seq.iterations[0].iteration, 0);
    assert_eq!(seq.iterations[0].branch_count, 0);
    assert!(seq.iterations[0].branches.is_empty());
    let par = run_parallel(p, dir_up(), rot_for_deg(30.0), 4, None, true).expect("parallel run");
    assert_eq!(par.total_branches, 0);
    assert_eq!(par.max_depth, 0);
    assert_eq!(par.iterations.len(), 1);
    assert_eq!(par.iterations[0].branch_count, 0);
}

#[test]
fn invalid_parameters_rejected() {
    let rot = rot_for_deg(30.0);
    let bad = [
        params(0.0, 0.67, 30.0, 0.01),
        params(-1.0, 0.67, 30.0, 0.01),
        params(f64::NAN, 0.67, 30.0, 0.01),
        params(100.0, 0.0, 30.0, 0.01),
        params(100.0, 1.0, 30.0, 0.01),
        params(100.0, 1.5, 30.0, 0.01),
        params(100.0, f64::NAN, 30.0, 0.01),
        params(100.0, 0.67, 30.0, 0.0),
        params(100.0, 0.67, 30.0, -0.5),
    ];
    for p in bad {
        assert_eq!(run_sequential(p, dir_up(), rot, false), Err(GenError::InvalidParameters));
        assert_eq!(run_parallel(p, dir_up(), rot, 4, None, false), Err(GenError::InvalidParameters));
    }
    let good = params(100.0, 0.67, 30.0, 50.0);
    assert_eq!(run_parallel(good, dir_up(), rot, 0, None, false), Err(GenError::InvalidParameters));
}

#[test]
fn too_deep_is_reported() {
    // Valid parameters whose length chain stays above the minimum past
    // the supported level cap: the exact count cannot be represented.
    let p = params(100.0, 0.999999, 30.0, 0.001);
    let rot = rot_for_deg(30.0);
    assert_eq!(run_sequential(p, dir_up(), rot, false), Err(GenError::TooDeep));
    assert_eq!(run_parallel(p, dir_up(), rot, 4, None, false), Err(GenError::TooDeep));
}
