//! The geometry recurrence and the size estimator.
//!
//! A branch at `(x, y)` with length `len` and direction `dir` ends at
//! `(x + len * dir.x, y + len * dir.y)`; its two children start there with
//! length `len * ratio` and directions obtained by rotating `dir` by the
//! branching angle counter-clockwise and clockwise. Recursion stops at the
//! first level whose length falls strictly below the minimum length.
//!
//! Because the length at a level depends only on the level (it is the trunk
//! length multiplied by the ratio once per level), the shape of the tree is
//! a perfect binary tree of as many levels as stay at or above the minimum
//! length. `levels_of` is the spec-level search for that level count, capped
//! at `MAX_LEVELS` so that branch counts fit the machine's integers;
//! `subtree_seq` is the exact branch sequence in depth-first emission order.

use vstd::prelude::*;
use vstd::arithmetic::power2::pow2;
use vstd::arithmetic::power2::lemma_pow2_unfold;
use vstd::arithmetic::power2::lemma_pow2_strictly_increases;
use vstd::arithmetic::power2::lemma2_to64;
use crate::float_bits::add_bits;
use crate::float_bits::mul_bits;
use crate::float_bits::sub_bits;
use crate::float_bits::lt_bits;
use crate::float_bits::add_f;
use crate::float_bits::mul_f;
use crate::float_bits::sub_f;
use crate::float_bits::lt_f;
use crate::types::Branch;
use crate::types::Direction;
use crate::types::GenError;
use crate::types::Rotation;

verus! {

/// The deepest level count any generation may reach. A tree of `k` levels
/// holds `2^k - 1` branches, so 64 levels is the most whose exact count
/// still fits the 64-bit counters the estimator works in; the estimator
/// additionally reports a count only when it fits a `usize`.
pub const MAX_LEVELS: usize = 64;

/// The direction of the counter-clockwise child: `dir` rotated by the
/// branching angle.
pub open spec fn rotate_ccw(dir: Direction, rot: Rotation) -> Direction {
    Direction {
        x: sub_bits(mul_bits(dir.x, rot.cos), mul_bits(dir.y, rot.sin)),
        y: add_bits(mul_bits(dir.y, rot.cos), mul_bits(dir.x, rot.sin)),
    }
}

/// The direction of the clockwise child: `dir` rotated by the negated
/// branching angle.
pub open spec fn rotate_cw(dir: Direction, rot: Rotation) -> Direction {
    Direction {
        x: add_bits(mul_bits(dir.x, rot.cos), mul_bits(dir.y, rot.sin)),
        y: sub_bits(mul_bits(dir.y, rot.cos), mul_bits(dir.x, rot.sin)),
    }
}

/// X coordinate of a branch's end point.
pub open spec fn end_x(x: u64, len: u64, dir: Direction) -> u64 {
    add_bits(x, mul_bits(len, dir.x))
}

/// Y coordinate of a branch's end point.
pub open spec fn end_y(y: u64, len: u64, dir: Direction) -> u64 {
    add_bits(y, mul_bits(len, dir.y))
}

/// The branch length `i` levels below a branch of length `len`: `len`
/// multiplied by the ratio once per level.
pub open spec fn len_at(len: u64, ratio: u64, i: nat) -> u64
    decreases i,
{
    if i == 0 {
        len
    } else {
        mul_bits(len_at(len, ratio, (i - 1) as nat), ratio)
    }
}

/// Whether the level `i` levels below a branch of length `len` still
/// generates: its length has not fallen strictly below the minimum.
pub open spec fn live_at(len: u64, ratio: u64, min_length: u64, i: nat) -> bool {
    !lt_bits(len_at(len, ratio, i), min_length)
}

/// Spec-level search for the first dead level at or after `i`, capped at
/// `MAX_LEVELS`.
pub open spec fn levels_search(len: u64, ratio: u64, min_length: u64, i: nat) -> Option<nat>
    decreases MAX_LEVELS + 1 - i,
{
    if i > MAX_LEVELS {
        None
    } else if !live_at(len, ratio, min_length, i) {
        Some(i)
    } else {
        levels_search(len, ratio, min_length, i + 1)
    }
}

/// The number of generating levels below a branch of length `len`: the
/// first level whose length falls below the minimum, or `None` when no
/// level up to `MAX_LEVELS` does (the tree would be too large to count).
pub open spec fn levels_of(len: u64, ratio: u64, min_length: u64) -> Option<nat> {
    levels_search(len, ratio, min_length, 0)
}

/// Shifting the length chain: the length `i + 1` levels below `len` is the
/// length `i` levels below `len * ratio`.
pub proof fn lemma_len_at_shift(len: u64, ratio: u64, i: nat)
    ensures
        len_at(len, ratio, i + 1) == len_at(mul_bits(len, ratio), ratio, i),
    decreases i,
{
    let m = mul_bits(len, ratio);
    if i == 0 {
        assert(len_at(len, ratio, 1) == mul_bits(len_at(len, ratio, 0), ratio));
    } else {
        lemma_len_at_shift(len, ratio, (i - 1) as nat);
        assert(len_at(len, ratio, i + 1) == mul_bits(len_at(len, ratio, i), ratio));
        assert(len_at(m, ratio, i) == mul_bits(len_at(m, ratio, (i - 1) as nat), ratio));
    }
}

proof fn lemma_levels_search_props(len: u64, ratio: u64, min_length: u64, i: nat)
    requires
        i <= MAX_LEVELS + 1,
    ensures
        match levels_search(len, ratio, min_length, i) {
            Some(k) => i <= k <= MAX_LEVELS && !live_at(len, ratio, min_length, k) && (forall|
                j: nat,
            | i <= j < k ==> live_at(len, ratio, min_length, j)),
            None => forall|j: nat| i <= j <= MAX_LEVELS ==> live_at(len, ratio, min_length, j),
        },
    decreases MAX_LEVELS + 1 - i,
{
    if i <= MAX_LEVELS && live_at(len, ratio, min_length, i) {
        lemma_levels_search_props(len, ratio, min_length, i + 1);
    }
}

/// What the level search guarantees of its outcome: a found level count is
/// the first dead level, and a failed search means every level up to the
/// cap is live.
pub proof fn lemma_levels_of_props(len: u64, ratio: u64, min_length: u64)
    ensures
        match levels_of(len, ratio, min_length) {
            Some(k) => k <= MAX_LEVELS && !live_at(len, ratio, min_length, k) && (forall|j: nat|
                j < k ==> live_at(len, ratio, min_length, j)),
            None => forall|j: nat| j <= MAX_LEVELS ==> live_at(len, ratio, min_length, j),
        },
{
    lemma_levels_search_props(len, ratio, min_length, 0);
}

/// The level search finds exactly the first dead level.
pub proof fn lemma_levels_of_finds(len: u64, ratio: u64, min_length: u64, k: nat)
    requires
        k <= MAX_LEVELS,
        forall|j: nat| j < k ==> live_at(len, ratio, min_length, j),
        !live_at(len, ratio, min_length, k),
    ensures
        levels_of(len, ratio, min_length) == Some(k),
{
    lemma_levels_search_finds(len, ratio, min_length, 0, k);
}

proof fn lemma_levels_search_finds(len: u64, ratio: u64, min_length: u64, i: nat, k: nat)
    requires
        i <= k <= MAX_LEVELS,
        forall|j: nat| i <= j < k ==> live_at(len, ratio, min_length, j),
        !live_at(len, ratio, min_length, k),
    ensures
        levels_search(len, ratio, min_length, i) == Some(k),
    decreases k - i,
{
    if i < k {
        lemma_levels_search_finds(len, ratio, min_length, i + 1, k);
    }
}

/// The exact sequence of branches the geometry recurrence emits, in
/// depth-first order (a branch, then its whole counter-clockwise subtree,
/// then its whole clockwise subtree), for a subtree whose root branch sits
/// at depth `depth` and whose generation stops at depth `horizon`.
pub open spec fn subtree_seq(
    x: u64,
    y: u64,
    len: u64,
    dir: Direction,
    rot: Rotation,
    ratio: u64,
    depth: nat,
    horizon: nat,
) -> Seq<Branch>
    decreases horizon - depth,
{
    if depth >= horizon {
        Seq::empty()
    } else {
        let ex = end_x(x, len, dir);
        let ey = end_y(y, len, dir);
        let cl = mul_bits(len, ratio);
        seq![(Branch { x1: x, y1: y, x2: ex, y2: ey, depth: depth as usize })]
            + subtree_seq(ex, ey, cl, rotate_ccw(dir, rot), rot, ratio, depth + 1, horizon)
            + subtree_seq(ex, ey, cl, rotate_cw(dir, rot), rot, ratio, depth + 1, horizon)
    }
}

/// A subtree spanning `horizon - depth` levels holds exactly
/// `2^(horizon - depth) - 1` branches.
pub proof fn lemma_subtree_size(
    x: u64,
    y: u64,
    len: u64,
    dir: Direction,
    rot: Rotation,
    ratio: u64,
    depth: nat,
    horizon: nat,
)
    requires
        depth <= horizon,
    ensures
        subtree_seq(x, y, len, dir, rot, ratio, depth, horizon).len() + 1 == pow2(
            (horizon - depth) as nat,
        ),
    decreases horizon - depth,
{
    if depth >= horizon {
        lemma2_to64();
    } else {
        let ex = end_x(x, len, dir);
        let ey = end_y(y, len, dir);
        let cl = mul_bits(len, ratio);
        lemma_subtree_size(ex, ey, cl, rotate_ccw(dir, rot), rot, ratio, depth + 1, horizon);
        lemma_subtree_size(ex, ey, cl, rotate_cw(dir, rot), rot, ratio, depth + 1, horizon);
        lemma_pow2_unfold((horizon - depth) as nat);
    }
}

/// Every branch of a subtree lies at a depth in `[depth, horizon)`, and
/// whenever the subtree is not empty, some branch reaches depth
/// `horizon - 1`.
pub proof fn lemma_subtree_depths(
    x: u64,
    y: u64,
    len: u64,
    dir: Direction,
    rot: Rotation,
    ratio: u64,
    depth: nat,
    horizon: nat,
)
    requires
        depth <= horizon <= usize::MAX,
    ensures
        ({
            let s = subtree_seq(x, y, len, dir, rot, ratio, depth, horizon);
            (forall|i: int| 0 <= i < s.len() ==> depth <= #[trigger] s[i].depth < horizon)
                && (depth < horizon ==> exists|i: int|
                0 <= i < s.len() && #[trigger] s[i].depth == horizon - 1)
        }),
    decreases horizon - depth,
{
    let s = subtree_seq(x, y, len, dir, rot, ratio, depth, horizon);
    if depth < horizon {
        let ex = end_x(x, len, dir);
        let ey = end_y(y, len, dir);
        let cl = mul_bits(len, ratio);
        let l = subtree_seq(ex, ey, cl, rotate_ccw(dir, rot), rot, ratio, depth + 1, horizon);
        let r = subtree_seq(ex, ey, cl, rotate_cw(dir, rot), rot, ratio, depth + 1, horizon);
        lemma_subtree_depths(ex, ey, cl, rotate_ccw(dir, rot), rot, ratio, depth + 1, horizon);
        lemma_subtree_depths(ex, ey, cl, rotate_cw(dir, rot), rot, ratio, depth + 1, horizon);
        assert forall|i: int| 0 <= i < s.len() implies depth <= #[trigger] s[i].depth
            < horizon by {
            if i >= 1 + l.len() {
                assert(s[i] == r[i - 1 - l.len()]);
            } else if i >= 1 {
                assert(s[i] == l[i - 1]);
            }
        }
        if depth + 1 < horizon {
            let j = choose|j: int| 0 <= j < l.len() && #[trigger] l[j].depth == horizon - 1;
            assert(s[j + 1] == l[j]);
        } else {
            assert(s[0].depth == depth);
        }
    }
}

/// The size estimator agrees with the generator: whenever a subtree can
/// be generated, the number of branches it holds is exactly one less than
/// two to the number of generating levels — the very count the estimator
/// reports.
pub proof fn lemma_count_matches_generation(
    x: u64,
    y: u64,
    len: u64,
    dir: Direction,
    rot: Rotation,
    ratio: u64,
    min_length: u64,
    depth: nat,
)
    ensures
        subtree_result(x, y, len, dir, rot, ratio, min_length, depth) matches Ok(s) ==> (
        levels_of(len, ratio, min_length) matches Some(k) && s.len() + 1 == pow2(k)),
{
    lemma_levels_of_props(len, ratio, min_length);
    if subtree_result(x, y, len, dir, rot, ratio, min_length, depth) is Ok {
        let k = levels_of(len, ratio, min_length)->Some_0;
        lemma_subtree_size(x, y, len, dir, rot, ratio, depth, depth + k);
    }
}

/// The threshold is honored exactly: every branch of a generated subtree
/// lies at a level whose length is still at or above the minimum — no
/// branch is ever emitted from a level the length threshold prunes — and
/// generation stops precisely at the first level below the minimum.
pub proof fn lemma_branches_at_live_levels(
    x: u64,
    y: u64,
    len: u64,
    dir: Direction,
    rot: Rotation,
    ratio: u64,
    min_length: u64,
    depth: nat,
)
    ensures
        subtree_result(x, y, len, dir, rot, ratio, min_length, depth) matches Ok(s) ==> forall|
            i: int,
        |
            0 <= i < s.len() ==> depth <= (#[trigger] s[i].depth) && live_at(
                len,
                ratio,
                min_length,
                (s[i].depth - depth) as nat,
            ),
{
    lemma_levels_of_props(len, ratio, min_length);
    if subtree_result(x, y, len, dir, rot, ratio, min_length, depth) is Ok {
        let k = levels_of(len, ratio, min_length)->Some_0;
        lemma_subtree_depths(x, y, len, dir, rot, ratio, depth, depth + k);
    }
}

/// What generating one subtree returns: the exact branch sequence when a
/// dead level exists within the cap and the depths fit a `usize`, and
/// `TooDeep` otherwise.
pub open spec fn subtree_result(
    x: u64,
    y: u64,
    len: u64,
    dir: Direction,
    rot: Rotation,
    ratio: u64,
    min_length: u64,
    depth: nat,
) -> Result<Seq<Branch>, GenError> {
    match levels_of(len, ratio, min_length) {
        Some(k) => if depth + k <= usize::MAX {
            Ok(subtree_seq(x, y, len, dir, rot, ratio, depth, depth + k))
        } else {
            Err(GenError::TooDeep)
        },
        None => Err(GenError::TooDeep),
    }
}

/// A generation outcome with the branch vector abstracted to its sequence.
pub open spec fn result_view(r: Result<Vec<Branch>, GenError>) -> Result<Seq<Branch>, GenError> {
    match r {
        Ok(v) => Ok(v@),
        Err(e) => Err(e),
    }
}

pub(crate) fn rotate_ccw_f(dir: Direction, rot: Rotation) -> (r: Direction)
    ensures
        r == rotate_ccw(dir, rot),
{
    let xc = mul_f(dir.x, rot.cos);
    let xs = mul_f(dir.x, rot.sin);
    let yc = mul_f(dir.y, rot.cos);
    let ys = mul_f(dir.y, rot.sin);
    Direction { x: sub_f(xc, ys), y: add_f(yc, xs) }
}

pub(crate) fn rotate_cw_f(dir: Direction, rot: Rotation) -> (r: Direction)
    ensures
        r == rotate_cw(dir, rot),
{
    let xc = mul_f(dir.x, rot.cos);
    let xs = mul_f(dir.x, rot.sin);
    let yc = mul_f(dir.y, rot.cos);
    let ys = mul_f(dir.y, rot.sin);
    Direction { x: add_f(xc, ys), y: sub_f(yc, xs) }
}

/// Runs the level search: how many levels below a branch of length
/// `length` stay at or above the minimum length, or `None` when the
/// search passes the cap.
pub fn find_levels(length: u64, ratio: u64, min_length: u64) -> (r: Option<usize>)
    ensures
        (r is Some) == (levels_of(length, ratio, min_length) is Some),
        r matches Some(k) ==> levels_of(length, ratio, min_length) == Some(k as nat),
{
    let mut i: usize = 0;
    let mut l: u64 = length;
    while i <= MAX_LEVELS
        invariant
            i <= MAX_LEVELS + 1,
            l == len_at(length, ratio, i as nat),
            levels_of(length, ratio, min_length) == levels_search(length, ratio, min_length, i as nat),
        decreases MAX_LEVELS + 1 - i,
    {
        if lt_f(l, min_length) {
            return Some(i);
        }
        l = mul_f(l, ratio);
        i = i + 1;
    }
    None
}

fn grow(
    out: &mut Vec<Branch>,
    x: u64,
    y: u64,
    len: u64,
    dir: Direction,
    rot: Rotation,
    ratio: u64,
    depth: usize,
    horizon: usize,
)
    requires
        depth <= horizon,
    ensures
        final(out)@ == old(out)@ + subtree_seq(x, y, len, dir, rot, ratio, depth as nat, horizon as nat),
    decreases horizon - depth,
{
    if depth >= horizon {
        assert(out@ =~= old(out)@ + subtree_seq(
            x,
            y,
            len,
            dir,
            rot,
            ratio,
            depth as nat,
            horizon as nat,
        ));
        return ;
    }
    let ex = add_f(x, mul_f(len, dir.x));
    let ey = add_f(y, mul_f(len, dir.y));
    out.push(Branch { x1: x, y1: y, x2: ex, y2: ey, depth });
    let cl = mul_f(len, ratio);
    let dl = rotate_ccw_f(dir, rot);
    let dr = rotate_cw_f(dir, rot);
    grow(out, ex, ey, cl, dl, rot, ratio, depth + 1, horizon);
    grow(out, ex, ey, cl, dr, rot, ratio, depth + 1, horizon);
    assert(out@ =~= old(out)@ + subtree_seq(
        x,
        y,
        len,
        dir,
        rot,
        ratio,
        depth as nat,
        horizon as nat,
    ));
}

fn pow2_minus_one(k: usize) -> (c: u64)
    requires
        k <= MAX_LEVELS,
    ensures
        c as nat + 1 == pow2(k as nat),
{
    let mut c: u64 = 0;
    let mut i: usize = 0;
    proof {
        lemma2_to64();
    }
    while i < k
        invariant
            i <= k <= MAX_LEVELS,
            c as nat + 1 == pow2(i as nat),
        decreases k - i,
    {
        proof {
            lemma_pow2_unfold((i + 1) as nat);
            if i + 1 < 64 {
                lemma_pow2_strictly_increases((i + 1) as nat, 64);
            }
            lemma2_to64();
        }
        c = 2 * c + 1;
        i = i + 1;
    }
    c
}

/// Generates the complete branch list of one subtree: the root branch at
/// `(x, y)` with the given length and direction at depth `start_depth`,
/// and recursively both children with length scaled by `ratio` and
/// direction rotated by the branching angle, stopping at the first level
/// whose length falls strictly below `min_length`. The output buffer is
/// pre-sized from the estimated count whenever that count fits the
/// machine, so generation never reallocates.
pub fn generate_fractal_tree(
    x: u64,
    y: u64,
    length: u64,
    dir: Direction,
    ratio: u64,
    rot: Rotation,
    min_length: u64,
    start_depth: usize,
) -> (r: Result<Vec<Branch>, GenError>)
    ensures
        result_view(r) == subtree_result(x, y, length, dir, rot, ratio, min_length, start_depth as nat),
{
    match find_levels(length, ratio, min_length) {
        None => Err(GenError::TooDeep),
        Some(k) => {
            proof {
                lemma_levels_of_props(length, ratio, min_length);
            }
            if start_depth > usize::MAX - k {
                return Err(GenError::TooDeep);
            }
            let cap = pow2_minus_one(k);
            let capacity = if cap <= usize::MAX as u64 {
                cap as usize
            } else {
                0
            };
            let mut branches: Vec<Branch> = Vec::with_capacity(capacity);
            grow(&mut branches, x, y, length, dir, rot, ratio, start_depth, start_depth + k);
            proof {
                assert(branches@ =~= subtree_seq(
                    x,
                    y,
                    length,
                    dir,
                    rot,
                    ratio,
                    start_depth as nat,
                    (start_depth + k) as nat,
                ));
            }
            Ok(branches)
        },
    }
}

/// The size estimator: the exact number of branches a generation call
/// starting at `length` would produce — `0` at lengths already below the
/// minimum, and otherwise one more than twice the count one level down.
/// `None` when no level within the supported cap falls below the minimum,
/// or when the exact count does not fit a `usize` on this machine.
pub fn count_branches(length: u64, ratio: u64, min_length: u64) -> (r: Option<usize>)
    ensures
        (r is Some) == (levels_of(length, ratio, min_length) matches Some(k) && pow2(k) <= usize::MAX
            as nat + 1),
        r matches Some(c) ==> (levels_of(length, ratio, min_length) matches Some(k) && c as nat + 1
            == pow2(k)),
{
    match find_levels(length, ratio, min_length) {
        None => None,
        Some(k) => {
            proof {
                lemma_levels_of_props(length, ratio, min_length);
            }
            let c = pow2_minus_one(k);
            if c <= usize::MAX as u64 {
                Some(c as usize)
            } else {
                None
            }
        },
    }
}

} // verus!
