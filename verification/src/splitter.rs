//! The task splitter, and the theorem that splitting loses nothing.
//!
//! The splitter walks the tree exactly as the geometry recurrence would,
//! but prunes by depth as well as by length: a node still above the
//! minimum length and above the split depth is emitted into the "upper"
//! collection and both children are visited; a node at or below the split
//! depth becomes one self-contained task; a node below the minimum length
//! is pruned, exactly as the recurrence would have pruned it.
//!
//! `lemma_split_covers_subtree` is the correctness theorem of the parallel
//! design: the upper branches plus the branches of every task's own
//! sequential generation are, as a multiset, exactly the branches of the
//! undivided sequential generation.

use vstd::prelude::*;
use vstd::multiset::Multiset;
use vstd::seq_lib::lemma_multiset_commutative;
use vstd::arithmetic::power2::pow2;
use vstd::arithmetic::power2::lemma_pow2_unfold;
use crate::float_bits::lt_bits;
use crate::float_bits::mul_bits;
use crate::float_bits::add_f;
use crate::float_bits::lt_f;
use crate::float_bits::mul_f;
use crate::geometry::end_x;
use crate::geometry::end_y;
use crate::geometry::live_at;
use crate::geometry::levels_of;
use crate::geometry::lemma_len_at_shift;
use crate::geometry::lemma_levels_of_finds;
use crate::geometry::rotate_ccw;
use crate::geometry::rotate_cw;
use crate::geometry::subtree_result;
use crate::geometry::subtree_seq;
use crate::geometry::MAX_LEVELS;
use crate::types::Branch;
use crate::types::Direction;
use crate::types::Rotation;
use crate::types::TaskParams;

verus! {

/// The branches the splitter emits above the split depth, in the walk's
/// depth-first order.
pub open spec fn split_upper(
    x: u64,
    y: u64,
    len: u64,
    dir: Direction,
    rot: Rotation,
    ratio: u64,
    min_length: u64,
    depth: nat,
    split: nat,
) -> Seq<Branch>
    decreases split - depth,
{
    if lt_bits(len, min_length) {
        Seq::empty()
    } else if depth >= split {
        Seq::empty()
    } else {
        let ex = end_x(x, len, dir);
        let ey = end_y(y, len, dir);
        let cl = mul_bits(len, ratio);
        seq![(Branch { x1: x, y1: y, x2: ex, y2: ey, depth: depth as usize })] + split_upper(
            ex,
            ey,
            cl,
            rotate_ccw(dir, rot),
            rot,
            ratio,
            min_length,
            depth + 1,
            split,
        ) + split_upper(ex, ey, cl, rotate_cw(dir, rot), rot, ratio, min_length, depth + 1, split)
    }
}

/// The task descriptors the splitter emits at the split depth, in the
/// walk's depth-first order.
pub open spec fn split_tasks(
    x: u64,
    y: u64,
    len: u64,
    dir: Direction,
    rot: Rotation,
    ratio: u64,
    min_length: u64,
    depth: nat,
    split: nat,
) -> Seq<TaskParams>
    decreases split - depth,
{
    if lt_bits(len, min_length) {
        Seq::empty()
    } else if depth >= split {
        seq![(TaskParams { x, y, length: len, dir, depth: depth as usize })]
    } else {
        let ex = end_x(x, len, dir);
        let ey = end_y(y, len, dir);
        let cl = mul_bits(len, ratio);
        split_tasks(ex, ey, cl, rotate_ccw(dir, rot), rot, ratio, min_length, depth + 1, split)
            + split_tasks(ex, ey, cl, rotate_cw(dir, rot), rot, ratio, min_length, depth + 1, split)
    }
}

/// All branches that sequentially generating every task of the frontier
/// would emit, each task's subtree stopping at the common `horizon`.
pub open spec fn frontier_branches(
    tasks: Seq<TaskParams>,
    rot: Rotation,
    ratio: u64,
    horizon: nat,
) -> Multiset<Branch>
    decreases tasks.len(),
{
    if tasks.len() == 0 {
        Multiset::empty()
    } else {
        subtree_seq(
            tasks[0].x,
            tasks[0].y,
            tasks[0].length,
            tasks[0].dir,
            rot,
            ratio,
            tasks[0].depth as nat,
            horizon,
        ).to_multiset().add(frontier_branches(tasks.drop_first(), rot, ratio, horizon))
    }
}

pub(crate) proof fn lemma_to_multiset_empty<A>(s: Seq<A>)
    requires
        s.len() == 0,
    ensures
        s.to_multiset() == Multiset::<A>::empty(),
{
    broadcast use vstd::multiset::group_multiset_axioms;

    s.to_multiset_ensures();
    vstd::multiset::lemma_multiset_empty_len(s.to_multiset());
    assert(s.to_multiset() =~= Multiset::<A>::empty());
}

/// The frontier of a concatenation is the two frontiers combined.
pub proof fn lemma_frontier_concat(
    t1: Seq<TaskParams>,
    t2: Seq<TaskParams>,
    rot: Rotation,
    ratio: u64,
    horizon: nat,
)
    ensures
        frontier_branches(t1 + t2, rot, ratio, horizon) == frontier_branches(
            t1,
            rot,
            ratio,
            horizon,
        ).add(frontier_branches(t2, rot, ratio, horizon)),
    decreases t1.len(),
{
    broadcast use vstd::multiset::group_multiset_axioms;

    if t1.len() == 0 {
        assert(t1 + t2 =~= t2);
        assert(frontier_branches(t1, rot, ratio, horizon).add(
            frontier_branches(t2, rot, ratio, horizon),
        ) =~= frontier_branches(t2, rot, ratio, horizon));
    } else {
        assert((t1 + t2).drop_first() =~= t1.drop_first() + t2);
        assert((t1 + t2)[0] == t1[0]);
        lemma_frontier_concat(t1.drop_first(), t2, rot, ratio, horizon);
        assert(frontier_branches(t1 + t2, rot, ratio, horizon) =~= frontier_branches(
            t1,
            rot,
            ratio,
            horizon,
        ).add(frontier_branches(t2, rot, ratio, horizon)));
    }
}

/// The parallel decomposition loses and invents nothing: for a subtree
/// whose levels die out exactly at `horizon`, the branches above the split
/// depth plus the branches of every frontier task's own sequential
/// generation are, as a multiset, exactly the branches of the undivided
/// sequential generation — whatever the split depth.
pub proof fn lemma_split_covers_subtree(
    x: u64,
    y: u64,
    len: u64,
    dir: Direction,
    rot: Rotation,
    ratio: u64,
    min_length: u64,
    depth: nat,
    split: nat,
    horizon: nat,
)
    requires
        depth <= horizon <= usize::MAX,
        forall|j: nat| depth + j < horizon ==> live_at(len, ratio, min_length, j),
        !live_at(len, ratio, min_length, (horizon - depth) as nat),
    ensures
        subtree_seq(x, y, len, dir, rot, ratio, depth, horizon).to_multiset() == split_upper(
            x,
            y,
            len,
            dir,
            rot,
            ratio,
            min_length,
            depth,
            split,
        ).to_multiset().add(
            frontier_branches(
                split_tasks(x, y, len, dir, rot, ratio, min_length, depth, split),
                rot,
                ratio,
                horizon,
            ),
        ),
    decreases split - depth,
{
    broadcast use vstd::multiset::group_multiset_axioms;

    let tree = subtree_seq(x, y, len, dir, rot, ratio, depth, horizon);
    let upper = split_upper(x, y, len, dir, rot, ratio, min_length, depth, split);
    let tasks = split_tasks(x, y, len, dir, rot, ratio, min_length, depth, split);
    if lt_bits(len, min_length) {
        // The node itself is pruned; the requires force `horizon == depth`.
        assert(!live_at(len, ratio, min_length, 0));
        assert(depth >= horizon);
        lemma_to_multiset_empty(tree);
        lemma_to_multiset_empty(upper);
        assert(tree.to_multiset() =~= upper.to_multiset().add(
            frontier_branches(tasks, rot, ratio, horizon),
        ));
    } else if depth >= split {
        // The whole subtree becomes a single task.
        assert(tasks == seq![(TaskParams { x, y, length: len, dir, depth: depth as usize })]);
        assert(tasks.drop_first() =~= Seq::<TaskParams>::empty());
        assert((depth as usize) as nat == depth);
        assert(frontier_branches(tasks.drop_first(), rot, ratio, horizon)
            == Multiset::<Branch>::empty());
        assert(subtree_seq(
            tasks[0].x,
            tasks[0].y,
            tasks[0].length,
            tasks[0].dir,
            rot,
            ratio,
            tasks[0].depth as nat,
            horizon,
        ) == tree);
        assert(frontier_branches(tasks, rot, ratio, horizon) =~= tree.to_multiset());
        lemma_to_multiset_empty(upper);
        assert(upper.to_multiset().add(frontier_branches(tasks, rot, ratio, horizon))
            =~= tree.to_multiset());
    } else {
        // The node is live and above the split depth: it cannot be the dead
        // level, so the tree is not empty here.
        assert(live_at(len, ratio, min_length, 0));
        assert(depth < horizon);
        let ex = end_x(x, len, dir);
        let ey = end_y(y, len, dir);
        let cl = mul_bits(len, ratio);
        let dl = rotate_ccw(dir, rot);
        let dr = rotate_cw(dir, rot);
        assert forall|j: nat| depth + 1 + j < horizon implies live_at(
            cl,
            ratio,
            min_length,
            j,
        ) by {
            lemma_len_at_shift(len, ratio, j);
            assert(live_at(len, ratio, min_length, j + 1));
        }
        lemma_len_at_shift(len, ratio, (horizon - depth - 1) as nat);
        assert(!live_at(cl, ratio, min_length, (horizon - (depth + 1)) as nat));
        lemma_split_covers_subtree(
            ex,
            ey,
            cl,
            dl,
            rot,
            ratio,
            min_length,
            depth + 1,
            split,
            horizon,
        );
        lemma_split_covers_subtree(
            ex,
            ey,
            cl,
            dr,
            rot,
            ratio,
            min_length,
            depth + 1,
            split,
            horizon,
        );
        let b = seq![(Branch { x1: x, y1: y, x2: ex, y2: ey, depth: depth as usize })];
        let tl = subtree_seq(ex, ey, cl, dl, rot, ratio, depth + 1, horizon);
        let tr = subtree_seq(ex, ey, cl, dr, rot, ratio, depth + 1, horizon);
        let ul = split_upper(ex, ey, cl, dl, rot, ratio, min_length, depth + 1, split);
        let ur = split_upper(ex, ey, cl, dr, rot, ratio, min_length, depth + 1, split);
        let kl = split_tasks(ex, ey, cl, dl, rot, ratio, min_length, depth + 1, split);
        let kr = split_tasks(ex, ey, cl, dr, rot, ratio, min_length, depth + 1, split);
        lemma_multiset_commutative(b + tl, tr);
        lemma_multiset_commutative(b, tl);
        lemma_multiset_commutative(b + ul, ur);
        lemma_multiset_commutative(b, ul);
        lemma_frontier_concat(kl, kr, rot, ratio, horizon);
        assert(tree.to_multiset() =~= upper.to_multiset().add(
            frontier_branches(tasks, rot, ratio, horizon),
        ));
    }
}

/// Every frontier task, generated on its own, succeeds and reproduces
/// exactly its subtree of the undivided generation up to the common
/// horizon.
pub proof fn lemma_split_tasks_generate(
    x: u64,
    y: u64,
    len: u64,
    dir: Direction,
    rot: Rotation,
    ratio: u64,
    min_length: u64,
    depth: nat,
    split: nat,
    horizon: nat,
)
    requires
        depth <= horizon <= usize::MAX,
        horizon - depth <= MAX_LEVELS,
        forall|j: nat| depth + j < horizon ==> live_at(len, ratio, min_length, j),
        !live_at(len, ratio, min_length, (horizon - depth) as nat),
    ensures
        ({
            let ts = split_tasks(x, y, len, dir, rot, ratio, min_length, depth, split);
            forall|i: int|
                0 <= i < ts.len() ==> #[trigger] subtree_result(
                    ts[i].x,
                    ts[i].y,
                    ts[i].length,
                    ts[i].dir,
                    rot,
                    ratio,
                    min_length,
                    ts[i].depth as nat,
                ) == Ok::<Seq<Branch>, crate::types::GenError>(
                    subtree_seq(
                        ts[i].x,
                        ts[i].y,
                        ts[i].length,
                        ts[i].dir,
                        rot,
                        ratio,
                        ts[i].depth as nat,
                        horizon,
                    ),
                )
        }),
    decreases split - depth,
{
    let ts = split_tasks(x, y, len, dir, rot, ratio, min_length, depth, split);
    if lt_bits(len, min_length) {
        // No tasks.
    } else if depth >= split {
        // One task: this very node, whose levels die out at the horizon.
        assert(!live_at(len, ratio, min_length, 0) == false);
        assert(depth < horizon);
        lemma_levels_of_finds(len, ratio, min_length, (horizon - depth) as nat);
        assert(levels_of(len, ratio, min_length) == Some((horizon - depth) as nat));
        assert(ts[0] == (TaskParams { x, y, length: len, dir, depth: depth as usize }));
    } else {
        assert(depth < horizon);
        let ex = end_x(x, len, dir);
        let ey = end_y(y, len, dir);
        let cl = mul_bits(len, ratio);
        let dl = rotate_ccw(dir, rot);
        let dr = rotate_cw(dir, rot);
        assert forall|j: nat| depth + 1 + j < horizon implies live_at(
            cl,
            ratio,
            min_length,
            j,
        ) by {
            lemma_len_at_shift(len, ratio, j);
            assert(live_at(len, ratio, min_length, j + 1));
        }
        lemma_len_at_shift(len, ratio, (horizon - depth - 1) as nat);
        assert(!live_at(cl, ratio, min_length, (horizon - (depth + 1)) as nat));
        lemma_split_tasks_generate(
            ex,
            ey,
            cl,
            dl,
            rot,
            ratio,
            min_length,
            depth + 1,
            split,
            horizon,
        );
        lemma_split_tasks_generate(
            ex,
            ey,
            cl,
            dr,
            rot,
            ratio,
            min_length,
            depth + 1,
            split,
            horizon,
        );
        let kl = split_tasks(ex, ey, cl, dl, rot, ratio, min_length, depth + 1, split);
        let kr = split_tasks(ex, ey, cl, dr, rot, ratio, min_length, depth + 1, split);
        assert forall|i: int| 0 <= i < ts.len() implies #[trigger] subtree_result(
            ts[i].x,
            ts[i].y,
            ts[i].length,
            ts[i].dir,
            rot,
            ratio,
            min_length,
            ts[i].depth as nat,
        ) == Ok::<Seq<Branch>, crate::types::GenError>(
            subtree_seq(
                ts[i].x,
                ts[i].y,
                ts[i].length,
                ts[i].dir,
                rot,
                ratio,
                ts[i].depth as nat,
                horizon,
            ),
        ) by {
            if i < kl.len() {
                assert(ts[i] == kl[i]);
            } else {
                assert(ts[i] == kr[i - kl.len()]);
            }
        }
    }
}

/// Walks the tree down to `split_depth`, pushing the branches above it
/// onto `upper` and returning one task descriptor per surviving node at
/// the split depth. A node whose length falls strictly below `min_length`
/// is pruned exactly as the geometry recurrence would prune it, before the
/// depth is considered.
pub fn collect_tasks(
    upper: &mut Vec<Branch>,
    x: u64,
    y: u64,
    length: u64,
    dir: Direction,
    ratio: u64,
    rot: Rotation,
    min_length: u64,
    depth: usize,
    split_depth: usize,
) -> (tasks: Vec<TaskParams>)
    ensures
        final(upper)@ == old(upper)@ + split_upper(
            x,
            y,
            length,
            dir,
            rot,
            ratio,
            min_length,
            depth as nat,
            split_depth as nat,
        ),
        tasks@ == split_tasks(
            x,
            y,
            length,
            dir,
            rot,
            ratio,
            min_length,
            depth as nat,
            split_depth as nat,
        ),
    decreases split_depth - depth,
{
    let ghost upper0 = upper@;
    if lt_f(length, min_length) {
        let tasks: Vec<TaskParams> = Vec::new();
        assert(upper@ =~= upper0 + split_upper(
            x,
            y,
            length,
            dir,
            rot,
            ratio,
            min_length,
            depth as nat,
            split_depth as nat,
        ));
        return tasks;
    }
    if depth >= split_depth {
        let mut tasks: Vec<TaskParams> = Vec::new();
        tasks.push(TaskParams { x, y, length, dir, depth });
        assert(upper@ =~= upper0 + split_upper(
            x,
            y,
            length,
            dir,
            rot,
            ratio,
            min_length,
            depth as nat,
            split_depth as nat,
        ));
        assert(tasks@ =~= split_tasks(
            x,
            y,
            length,
            dir,
            rot,
            ratio,
            min_length,
            depth as nat,
            split_depth as nat,
        ));
        return tasks;
    }
    let ex = add_f(x, mul_f(length, dir.x));
    let ey = add_f(y, mul_f(length, dir.y));
    upper.push(Branch { x1: x, y1: y, x2: ex, y2: ey, depth });
    let cl = mul_f(length, ratio);
    let dl = crate::geometry::rotate_ccw_f(dir, rot);
    let dr = crate::geometry::rotate_cw_f(dir, rot);
    let mut tasks = collect_tasks(
        upper,
        ex,
        ey,
        cl,
        dl,
        ratio,
        rot,
        min_length,
        depth + 1,
        split_depth,
    );
    let mut tasks_r = collect_tasks(
        upper,
        ex,
        ey,
        cl,
        dr,
        ratio,
        rot,
        min_length,
        depth + 1,
        split_depth,
    );
    tasks.append(&mut tasks_r);
    assert(upper@ =~= upper0 + split_upper(
        x,
        y,
        length,
        dir,
        rot,
        ratio,
        min_length,
        depth as nat,
        split_depth as nat,
    ));
    assert(tasks@ =~= split_tasks(
        x,
        y,
        length,
        dir,
        rot,
        ratio,
        min_length,
        depth as nat,
        split_depth as nat,
    ));
    tasks
}

/// The split depth policy: the smallest depth whose frontier capacity
/// `2^d` reaches four times the worker count, capped at `MAX_LEVELS`.
pub fn split_depth_for(workers: usize) -> (d: usize)
    requires
        workers >= 1,
    ensures
        d <= MAX_LEVELS,
        d < MAX_LEVELS ==> pow2(d as nat) >= 4 * workers,
        forall|e: nat| e < d ==> pow2(e) < 4 * workers,
{
    let goal: u128 = 4u128 * (workers as u128);
    let mut d: usize = 0;
    let mut p: u128 = 1;
    proof {
        vstd::arithmetic::power2::lemma2_to64();
    }
    while d < MAX_LEVELS && p < goal
        invariant
            d <= MAX_LEVELS,
            goal == 4 * workers,
            p == pow2(d as nat),
            p <= 0x1_0000_0000_0000_0000u128,
            forall|e: nat| e < d ==> pow2(e) < 4 * workers,
        decreases MAX_LEVELS - d,
    {
        proof {
            lemma_pow2_unfold((d + 1) as nat);
            vstd::arithmetic::power2::lemma_pow2_strictly_increases(d as nat, (d + 1) as nat);
            if d + 1 < 64 {
                vstd::arithmetic::power2::lemma_pow2_strictly_increases((d + 1) as nat, 64);
            }
            vstd::arithmetic::power2::lemma2_to64();
            assert forall|e: nat| e < d + 1 implies pow2(e) < 4 * workers by {
                if e < d {
                } else {
                    assert(pow2(e) == p);
                }
            }
        }
        p = 2 * p;
        d = d + 1;
    }
    d
}

} // verus!
