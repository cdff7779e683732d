//! Tests of the geometry recurrence and the size estimator, against a
//! plain-`f64` reference implementation of the same recurrence.

use fractal_tree::count_branches;
use fractal_tree::generate_fractal_tree;
use fractal_tree::Branch;
use fractal_tree::Direction;
use fractal_tree::Rotation;

fn bits(x: f64) -> u64 {
    x.to_bits()
}

fn dir_for(angle: f64) -> Direction {
    Direction { x: bits(angle.cos()), y: bits(angle.sin()) }
}

fn rot_for_deg(deg: f64) -> Rotation {
    let r = deg.to_radians();
    Rotation { cos: bits(r.cos()), sin: bits(r.sin()) }
}

/// The same recurrence in plain double arithmetic: every coordinate the
/// library computes through its software-float wrappers must match this
/// bit for bit.
#[allow(clippy::too_many_arguments)]
fn reference_recurse(
    out: &mut Vec<(f64, f64, f64, f64, usize)>,
    x: f64,
    y: f64,
    len: f64,
    dx: f64,
    dy: f64,
    cb: f64,
    sb: f64,
    ratio: f64,
    min_length: f64,
    depth: usize,
) {
    if len < min_length {
        return;
    }
    let ex = x + len * dx;
    let ey = y + len * dy;
    out.push((x, y, ex, ey, depth));
    let cl = len * ratio;
    reference_recurse(
        out,
        ex,
        ey,
        cl,
        dx * cb - dy * sb,
        dy * cb + dx * sb,
        cb,
        sb,
        ratio,
        min_length,
        depth + 1,
    );
    reference_recurse(
        out,
        ex,
        ey,
        cl,
        dx * cb + dy * sb,
        dy * cb - dx * sb,
        cb,
        sb,
        ratio,
        min_length,
        depth + 1,
    );
}

fn reference_tree(
    trunk: f64,
    ratio: f64,
    angle_deg: f64,
    min_length: f64,
) -> Vec<(f64, f64, f64, f64, usize)> {
    let start = std::f64::consts::FRAC_PI_2;
    let beta = angle_deg.to_radians();
    let mut out = Vec::new();
    reference_recurse(
        &mut out,
        0.0,
        0.0,
        trunk,
        start.cos(),
        start.sin(),
        beta.cos(),
        beta.sin(),
        ratio,
        min_length,
        0,
    );
    out
}

fn generate(trunk: f64, ratio: f64, angle_deg: f64, min_length: f64) -> Vec<Branch> {
    generate_fractal_tree(
        bits(0.0),
        bits(0.0),
        bits(trunk),
        dir_for(std::f64::consts::FRAC_PI_2),
        bits(ratio),
        rot_for_deg(angle_deg),
        bits(min_length),
        0,
    )
    .expect("generation should succeed")
}

#[test]
fn single_branch_when_min_equals_trunk() {
    // The threshold is a strict less-than: a trunk exactly at the minimum
    // length is still generated, and nothing below it is.
    let branches = generate(100.0, 0.67, 30.0, 100.0);
    assert_eq!(branches.len(), 1);
    let b = branches[0];
    assert_eq!(b.depth, 0);
    assert_eq!(b.x1, bits(0.0));
    assert_eq!(b.y1, bits(0.0));
    let start = std::f64::consts::FRAC_PI_2;
    assert_eq!(b.x2, bits(0.0 + 100.0 * start.cos()));
    assert_eq!(b.y2, bits(0.0 + 100.0 * start.sin()));
    assert_eq!(count_branches(bits(100.0), bits(0.67), bits(100.0)), Some(1));
}

#[test]
fn empty_when_trunk_below_min() {
    let branches = generate(50.0, 0.67, 30.0, 100.0);
    assert!(branches.is_empty());
    assert_eq!(count_branches(bits(50.0), bits(0.67), bits(100.0)), Some(0));
}

#[test]
fn estimator_matches_generator_small() {
    for &(trunk, ratio, min) in
        &[(100.0, 0.67, 50.0), (100.0, 0.67, 30.0), (1.0, 0.5, 0.1), (10.0, 0.9, 9.0)]
    {
        let count = count_branches(bits(trunk), bits(ratio), bits(min)).expect("within cap");
        let branches = generate(trunk, ratio, 30.0, min);
        assert_eq!(count, branches.len(), "for ({trunk}, {ratio}, {min})");
    }
}

#[test]
fn estimator_matches_generator_deep() {
    // Deep enough for several thousand branches: no stack or buffer
    // trouble, and the estimator still agrees exactly.
    let count = count_branches(bits(100.0), bits(0.67), bits(0.5)).expect("within cap");
    assert_eq!(count, 16383);
    let branches = generate(100.0, 0.67, 30.0, 0.5);
    assert_eq!(branches.len(), 16383);
    let max_depth = branches.iter().map(|b| b.depth).max().unwrap();
    assert_eq!(max_depth, 13);
}

#[test]
fn estimator_counts_past_the_generated_range() {
    // A ratio of one half halves the length exactly, so the level count
    // is exact arithmetic: 100 * 2^-46 is still at least 1e-12 and
    // 100 * 2^-47 is below it, giving 47 levels and 2^47 - 1 branches —
    // far more than could ever be generated, but counted exactly.
    assert_eq!(count_branches(bits(100.0), bits(0.5), bits(1e-12)), Some(140737488355327));
}

#[test]
fn estimator_refuses_overlong_chains() {
    // A ratio this close to 1 keeps the length above the minimum past the
    // supported level cap: the exact count cannot be represented.
    assert_eq!(count_branches(bits(100.0), bits(0.999999), bits(0.001)), None);
}

#[test]
fn branch_lengths_at_least_min() {
    // Every emitted branch spans at least the minimum length (up to
    // floating-point epsilon), and the first pruned level is below it.
    let (trunk, ratio, min) = (100.0, 0.67, 2.0);
    let branches = generate(trunk, ratio, 30.0, min);
    assert!(!branches.is_empty());
    for b in &branches {
        let (x1, y1) = (f64::from_bits(b.x1), f64::from_bits(b.y1));
        let (x2, y2) = (f64::from_bits(b.x2), f64::from_bits(b.y2));
        let d = ((x2 - x1).powi(2) + (y2 - y1).powi(2)).sqrt();
        assert!(d >= min - 1e-9, "branch of length {d} at depth {}", b.depth);
    }
    let levels = 1 + branches.iter().map(|b| b.depth).max().unwrap();
    let mut len = trunk;
    for _ in 0..levels {
        assert!(len >= min);
        len *= ratio;
    }
    assert!(len < min, "the first pruned level must be below the minimum");
}

#[test]
fn endpoints_match_reference() {
    // Bit-for-bit agreement with plain double arithmetic, in the same
    // depth-first emission order.
    let branches = generate(100.0, 0.67, 30.0, 5.0);
    let reference = reference_tree(100.0, 0.67, 30.0, 5.0);
    assert_eq!(branches.len(), reference.len());
    for (b, r) in branches.iter().zip(reference.iter()) {
        assert_eq!(
            (
                f64::from_bits(b.x1),
                f64::from_bits(b.y1),
                f64::from_bits(b.x2),
                f64::from_bits(b.y2),
                b.depth
            ),
            *r
        );
    }
}

#[test]
fn subtree_anchor_and_depth_respected() {
    // The low-level entry generates a subtree from an explicit anchor,
    // length, direction and starting depth.
    let branches = generate_fractal_tree(
        bits(3.0),
        bits(4.0),
        bits(10.0),
        dir_for(0.25),
        bits(0.5),
        rot_for_deg(45.0),
        bits(6.0),
        7,
    )
    .expect("generation should succeed");
    assert_eq!(branches.len(), 1);
    assert_eq!(branches[0].depth, 7);
    assert_eq!(branches[0].x1, bits(3.0));
    assert_eq!(branches[0].y1, bits(4.0));
    assert_eq!(branches[0].x2, bits(3.0 + 10.0 * 0.25f64.cos()));
    assert_eq!(branches[0].y2, bits(4.0 + 10.0 * 0.25f64.sin()));
}
