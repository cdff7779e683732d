//! Tests of the per-depth snapshot aggregation.

use fractal_tree::group_by_depth;
use fractal_tree::max_depth_of;
use fractal_tree::run_parallel;
use fractal_tree::run_sequential;
use fractal_tree::Branch;
use fractal_tree::Direction;
use fractal_tree::Parameters;
use fractal_tree::Rotation;

fn bits(x: f64) -> u64 {
    x.to_bits()
}

fn dir_up() -> Direction {
    let a = std::f64::consts::FRAC_PI_2;
    Direction { x: bits(a.cos()), y: bits(a.sin()) }
}

fn rot_for_deg(deg: f64) -> Rotation {
    let r = deg.to_radians();
    Rotation { cos: bits(r.cos()), sin: bits(r.sin()) }
}

fn branch(d: usize) -> Branch {
    Branch { x1: d as u64, y1: 0, x2: 0, y2: 0, depth: d }
}

#[test]
fn snapshots_grow_to_the_total() {
    // Trunk 100, ratio 0.67, minimum 20: five levels (100, 67, 44.89,
    // 30.08, 20.15), 31 branches in all.
    let p = Parameters {
        trunk_length: bits(100.0),
        ratio: bits(0.67),
        branch_angle: bits(30.0),
        min_length: bits(20.0),
    };
    let res = run_sequential(p, dir_up(), rot_for_deg(30.0), true).expect("sequential run");
    assert_eq!(res.total_branches, 31);
    assert_eq!(res.max_depth, 4);
    assert_eq!(res.iterations.len(), 5);
    let expected = [1usize, 3, 7, 15, 31];
    for (d, it) in res.iterations.iter().enumerate() {
        assert_eq!(it.iteration, d);
        assert_eq!(it.branch_count, expected[d]);
        assert_eq!(it.branches.len(), expected[d]);
    }
    for w in res.iterations.windows(2) {
        assert!(w[0].branch_count <= w[1].branch_count);
    }
    assert_eq!(res.iterations.last().unwrap().branch_count, res.total_branches);
}

#[test]
fn parallel_snapshots_have_the_same_counts() {
    let p = Parameters {
        trunk_length: bits(100.0),
        ratio: bits(0.67),
        branch_angle: bits(30.0),
        min_length: bits(20.0),
    };
    let seq = run_sequential(p, dir_up(), rot_for_deg(30.0), true).expect("sequential run");
    let par = run_parallel(p, dir_up(), rot_for_deg(30.0), 4, None, true).expect("parallel run");
    assert_eq!(par.iterations.len(), seq.iterations.len());
    for (s, q) in seq.iterations.iter().zip(par.iterations.iter()) {
        assert_eq!(s.iteration, q.iteration);
        assert_eq!(s.branch_count, q.branch_count);
        let mut a = s.branches.clone();
        let mut b = q.branches.clone();
        a.sort();
        b.sort();
        assert_eq!(a, b, "snapshot {} holds the same branches", s.iteration);
    }
}

#[test]
fn group_by_depth_buckets_cumulatively() {
    let groups = vec![
        vec![branch(0), branch(1), branch(1)],
        vec![],
        vec![branch(2), branch(3), branch(1)],
    ];
    let iters = group_by_depth(&groups);
    assert_eq!(iters.len(), 4);
    let counts: Vec<usize> = iters.iter().map(|it| it.branch_count).collect();
    assert_eq!(counts, vec![1, 4, 5, 6]);
    for (d, it) in iters.iter().enumerate() {
        assert_eq!(it.iteration, d);
        assert_eq!(it.branches.len(), it.branch_count);
    }
    // Order within a snapshot follows the flattened group order.
    assert_eq!(iters[1].branches[0], (0, 0, 0, 0));
    assert_eq!(iters[1].branches[1], (1, 0, 0, 0));
    assert_eq!(iters[1].branches[2], (1, 0, 0, 0));
    assert_eq!(iters[1].branches[3], (1, 0, 0, 0));
}

#[test]
fn group_by_depth_of_nothing_is_one_empty_snapshot() {
    // The maximum depth of an empty branch set defaults to 0, so there is
    // exactly one snapshot, at depth 0, holding nothing.
    let no_groups: Vec<Vec<Branch>> = Vec::new();
    let iters = group_by_depth(&no_groups);
    assert_eq!(iters.len(), 1);
    assert_eq!(iters[0].iteration, 0);
    assert_eq!(iters[0].branch_count, 0);
    assert!(iters[0].branches.is_empty());
    let empty_groups: Vec<Vec<Branch>> = vec![Vec::new(), Vec::new()];
    let iters = group_by_depth(&empty_groups);
    assert_eq!(iters.len(), 1);
    assert_eq!(iters[0].iteration, 0);
    assert_eq!(iters[0].branch_count, 0);
    assert!(iters[0].branches.is_empty());
}

#[test]
fn max_depth_of_branches() {
    let v: Vec<Branch> = Vec::new();
    assert_eq!(max_depth_of(&v), 0);
    let v = vec![branch(2), branch(7), branch(5)];
    assert_eq!(max_depth_of(&v), 7);
}
