//! The result aggregator: flattening per-task branch lists, the maximum
//! depth, and the cumulative per-depth snapshots for progressive
//! rendering.

use vstd::prelude::*;
use vstd::multiset::Multiset;
use crate::types::Branch;
use crate::types::Iteration;

verus! {

/// The views of a sequence of branch groups.
pub open spec fn group_views(groups: Seq<Vec<Branch>>) -> Seq<Seq<Branch>> {
    groups.map_values(|g: Vec<Branch>| g@)
}

/// All branches of all groups, flattened in order.
pub open spec fn flat_branches(groups: Seq<Vec<Branch>>) -> Seq<Branch> {
    group_views(groups).flatten()
}

/// The endpoint 4-tuple of a branch.
pub open spec fn endpoints_of(b: Branch) -> (u64, u64, u64, u64) {
    (b.x1, b.y1, b.x2, b.y2)
}

/// Keeping a branch whose depth is at most `d`.
pub open spec fn depth_at_most(d: int) -> spec_fn(Branch) -> bool {
    |b: Branch| b.depth <= d
}

/// Flattening a branch to its endpoints.
pub open spec fn to_endpoints() -> spec_fn(Branch) -> (u64, u64, u64, u64) {
    |b: Branch| endpoints_of(b)
}

/// The snapshot at depth `d`: the endpoints of every branch of depth at
/// most `d`, in the order the branches stand in `flat`.
pub open spec fn snapshot_at(flat: Seq<Branch>, d: int) -> Seq<(u64, u64, u64, u64)> {
    flat.filter(depth_at_most(d)).map_values(to_endpoints())
}

/// The largest depth among the branches, or 0 when there are none.
pub open spec fn max_depth_in(s: Seq<Branch>) -> nat
    decreases s.len(),
{
    if s.len() == 0 {
        0
    } else {
        let rest = max_depth_in(s.drop_last());
        if s.last().depth as nat > rest {
            s.last().depth as nat
        } else {
            rest
        }
    }
}

/// The maximum depth bounds every branch's depth and, when any branch
/// exists, is attained by one of them.
pub proof fn lemma_max_depth_in_props(s: Seq<Branch>)
    ensures
        forall|i: int| 0 <= i < s.len() ==> #[trigger] s[i].depth <= max_depth_in(s),
        s.len() > 0 ==> exists|i: int| 0 <= i < s.len() && #[trigger] s[i].depth == max_depth_in(s),
    decreases s.len(),
{
    if s.len() > 0 {
        let rest = s.drop_last();
        lemma_max_depth_in_props(rest);
        assert forall|i: int| 0 <= i < s.len() implies #[trigger] s[i].depth <= max_depth_in(
            s,
        ) by {
            if i < s.len() - 1 {
                assert(s[i] == rest[i]);
            }
        }
        if s.last().depth as nat >= max_depth_in(rest) {
            assert(s[s.len() - 1].depth == max_depth_in(s));
        } else {
            assert(max_depth_in(rest) > 0);
            assert(rest.len() > 0);
            let j = choose|j: int| 0 <= j < rest.len() && #[trigger] rest[j].depth == max_depth_in(
                rest,
            );
            assert(s[j] == rest[j]);
            assert(s[j].depth == max_depth_in(s));
        }
    }
}

/// Two branch collections holding the same branches (as a multiset) have
/// the same maximum depth.
pub proof fn lemma_max_depth_multiset(s1: Seq<Branch>, s2: Seq<Branch>)
    requires
        s1.to_multiset() == s2.to_multiset(),
    ensures
        max_depth_in(s1) == max_depth_in(s2),
{
    s1.to_multiset_ensures();
    s2.to_multiset_ensures();
    lemma_max_depth_in_props(s1);
    lemma_max_depth_in_props(s2);
    if s1.len() > 0 {
        let i = choose|i: int| 0 <= i < s1.len() && #[trigger] s1[i].depth == max_depth_in(s1);
        assert(s1.contains(s1[i]));
        assert(s1.to_multiset().count(s1[i]) > 0);
        assert(s2.to_multiset().count(s1[i]) > 0);
        assert(s2.contains(s1[i]));
        let j = choose|j: int| 0 <= j < s2.len() && s2[j] == s1[i];
        assert(s2[j].depth <= max_depth_in(s2));
    }
    if s2.len() > 0 {
        let i = choose|i: int| 0 <= i < s2.len() && #[trigger] s2[i].depth == max_depth_in(s2);
        assert(s2.contains(s2[i]));
        assert(s2.to_multiset().count(s2[i]) > 0);
        assert(s1.to_multiset().count(s2[i]) > 0);
        assert(s1.contains(s2[i]));
        let j = choose|j: int| 0 <= j < s1.len() && s1[j] == s2[i];
        assert(s1[j].depth <= max_depth_in(s1));
    }
}

/// Snapshots only grow: at a deeper cut, the snapshot holds at least as
/// many branches.
pub proof fn lemma_snapshots_monotone(flat: Seq<Branch>, d1: int, d2: int)
    requires
        d1 <= d2,
    ensures
        snapshot_at(flat, d1).len() <= snapshot_at(flat, d2).len(),
    decreases flat.len(),
{
    if flat.len() > 0 {
        let rest = flat.drop_last();
        lemma_snapshots_monotone(rest, d1, d2);
        assert(flat =~= rest.push(flat.last()));
        rest.lemma_filter_len_push(depth_at_most(d1), flat.last());
        rest.lemma_filter_len_push(depth_at_most(d2), flat.last());
    }
}

/// A snapshot at a depth no branch exceeds holds every branch.
pub proof fn lemma_snapshot_complete(flat: Seq<Branch>, d: int)
    requires
        forall|i: int| 0 <= i < flat.len() ==> #[trigger] flat[i].depth <= d,
    ensures
        snapshot_at(flat, d).len() == flat.len(),
    decreases flat.len(),
{
    if flat.len() > 0 {
        let rest = flat.drop_last();
        assert forall|i: int| 0 <= i < rest.len() implies #[trigger] rest[i].depth <= d by {
            assert(rest[i] == flat[i]);
        }
        lemma_snapshot_complete(rest, d);
        assert(flat =~= rest.push(flat.last()));
        rest.lemma_filter_len_push(depth_at_most(d), flat.last());
        assert(flat[flat.len() - 1].depth <= d);
    }
}

/// Filtering commutes with forgetting order: the multiset of a filtered
/// sequence is the filtered multiset of the sequence.
pub proof fn lemma_filter_to_multiset(s: Seq<Branch>, p: spec_fn(Branch) -> bool)
    ensures
        s.filter(p).to_multiset() == s.to_multiset().filter(p),
    decreases s.len(),
{
    broadcast use vstd::multiset::group_multiset_axioms;

    if s.len() == 0 {
        reveal(Seq::filter);
        crate::splitter::lemma_to_multiset_empty(s.filter(p));
        crate::splitter::lemma_to_multiset_empty(s);
        assert(s.to_multiset().filter(p) =~= Multiset::<Branch>::empty());
    } else {
        let rest = s.drop_last();
        let x = s.last();
        lemma_filter_to_multiset(rest, p);
        assert(s =~= rest.push(x));
        rest.lemma_filter_push(x, p);
        rest.to_multiset_ensures();
        rest.filter(p).to_multiset_ensures();
        assert(rest.push(x).to_multiset() =~= rest.to_multiset().insert(x));
        assert(rest.filter(p).push(x).to_multiset() =~= rest.filter(p).to_multiset().insert(x));
        assert(s.filter(p).to_multiset() =~= s.to_multiset().filter(p));
    }
}

/// Mapping commutes with forgetting order: sequences holding the same
/// elements map to sequences holding the same images.
pub proof fn lemma_map_values_to_multiset<A, B>(t1: Seq<A>, t2: Seq<A>, f: spec_fn(A) -> B)
    requires
        t1.to_multiset() == t2.to_multiset(),
    ensures
        t1.map_values(f).to_multiset() == t2.map_values(f).to_multiset(),
    decreases t1.len(),
{
    broadcast use vstd::multiset::group_multiset_axioms;

    t1.to_multiset_ensures();
    t2.to_multiset_ensures();
    if t1.len() == 0 {
        assert(t2.len() == 0);
        crate::splitter::lemma_to_multiset_empty(t1.map_values(f));
        crate::splitter::lemma_to_multiset_empty(t2.map_values(f));
    } else {
        let x = t1.last();
        let r1 = t1.drop_last();
        assert(t1 =~= r1.push(x));
        r1.to_multiset_ensures();
        assert(r1.push(x).to_multiset() =~= r1.to_multiset().insert(x));
        assert(t1.contains(x));
        assert(t1.to_multiset().count(x) > 0);
        assert(t2.to_multiset().count(x) > 0);
        assert(t2.contains(x));
        let j = choose|j: int| 0 <= j < t2.len() && t2[j] == x;
        let r2 = t2.remove(j);
        assert(t2.remove(j).to_multiset() =~= t2.to_multiset().remove(t2[j]));
        assert(r1.to_multiset() =~= r2.to_multiset());
        lemma_map_values_to_multiset(r1, r2, f);
        let m1 = t1.map_values(f);
        let mr1 = r1.map_values(f);
        assert(m1 =~= mr1.push(f(x)));
        mr1.to_multiset_ensures();
        assert(mr1.push(f(x)).to_multiset() =~= mr1.to_multiset().insert(f(x)));
        let m2 = t2.map_values(f);
        let mr2 = r2.map_values(f);
        m2.to_multiset_ensures();
        assert(mr2 =~= m2.remove(j));
        assert(m2.remove(j).to_multiset() =~= m2.to_multiset().remove(m2[j]));
        assert(m2[j] == f(x));
        assert(m2.contains(m2[j]));
        assert(m2.to_multiset().count(f(x)) > 0);
        assert(m1.to_multiset() =~= m2.to_multiset());
    }
}

/// Collections holding the same branches have the same snapshot at every
/// depth, up to the order within the snapshot: the same size and the same
/// endpoint tuples.
pub proof fn lemma_snapshot_len_multiset(s1: Seq<Branch>, s2: Seq<Branch>, d: int)
    requires
        s1.to_multiset() == s2.to_multiset(),
    ensures
        snapshot_at(s1, d).len() == snapshot_at(s2, d).len(),
        snapshot_at(s1, d).to_multiset() == snapshot_at(s2, d).to_multiset(),
{
    lemma_filter_to_multiset(s1, depth_at_most(d));
    lemma_filter_to_multiset(s2, depth_at_most(d));
    s1.filter(depth_at_most(d)).to_multiset_ensures();
    s2.filter(depth_at_most(d)).to_multiset_ensures();
    lemma_map_values_to_multiset(
        s1.filter(depth_at_most(d)),
        s2.filter(depth_at_most(d)),
        to_endpoints(),
    );
}

/// The largest `depth` field over all branches, 0 when there are none.
pub fn max_depth_of(branches: &Vec<Branch>) -> (md: usize)
    ensures
        md as nat == max_depth_in(branches@),
{
    let mut md: usize = 0;
    let mut i: usize = 0;
    while i < branches.len()
        invariant
            i <= branches@.len(),
            md as nat == max_depth_in(branches@.take(i as int)),
        decreases branches@.len() - i,
    {
        let b = branches[i];
        proof {
            assert(branches@.take(i + 1).drop_last() =~= branches@.take(i as int));
            assert(branches@.take(i + 1).last() == branches@[i as int]);
        }
        if b.depth > md {
            md = b.depth;
        }
        i = i + 1;
    }
    proof {
        assert(branches@.take(branches@.len() as int) =~= branches@);
    }
    md
}

/// Buckets the branches of all groups into cumulative per-depth
/// snapshots: for each depth `d` from 0 to the maximum depth inclusive, a
/// snapshot of every branch of depth at most `d` with its own count. The
/// maximum depth of no branches at all is 0, so an empty input yields one
/// empty snapshot at depth 0.
pub fn group_by_depth(groups: &[Vec<Branch>]) -> (iters: Vec<Iteration>)
    ensures
        ({
            let flat = flat_branches(groups@);
            iters@.len() == max_depth_in(flat) + 1int && (forall|d: int|
                0 <= d < iters@.len() ==> {
                    &&& (#[trigger] iters@[d]).iteration == d
                    &&& iters@[d].branches@ == snapshot_at(flat, d)
                    &&& iters@[d].branch_count == snapshot_at(flat, d).len()
                })
        }),
{
    let ghost gview = groups@;
    let mut flat: Vec<Branch> = Vec::new();
    let mut gi: usize = 0;
    while gi < groups.len()
        invariant
            gview == groups@,
            gi <= gview.len(),
            flat@ == flat_branches(gview.take(gi as int)),
        decreases gview.len() - gi,
    {
        flat.extend_from_slice(groups[gi].as_slice());
        proof {
            let pre = gview.take(gi as int);
            assert(gview.take(gi + 1) =~= pre.push(gview[gi as int]));
            assert(group_views(gview.take(gi + 1)) =~= group_views(pre).push(gview[gi as int]@));
            group_views(pre).lemma_flatten_push(gview[gi as int]@);
        }
        gi = gi + 1;
    }
    proof {
        assert(gview.take(gview.len() as int) =~= gview);
    }
    let md = max_depth_of(&flat);
    let mut iters: Vec<Iteration> = Vec::new();
    let mut d: u128 = 0;
    while d <= md as u128
        invariant
            flat@ == flat_branches(groups@),
            md as nat == max_depth_in(flat@),
            d <= md as u128 + 1,
            iters@.len() == d,
            forall|e: int|
                0 <= e < d ==> {
                    &&& (#[trigger] iters@[e]).iteration == e
                    &&& iters@[e].branches@ == snapshot_at(flat@, e)
                    &&& iters@[e].branch_count == snapshot_at(flat@, e).len()
                },
        decreases md as u128 + 1 - d,
    {
        let du: usize = d as usize;
        let mut snap: Vec<(u64, u64, u64, u64)> = Vec::new();
        let mut bi: usize = 0;
        while bi < flat.len()
            invariant
                bi <= flat@.len(),
                du as int == d as int,
                snap@ == snapshot_at(flat@.take(bi as int), d as int),
            decreases flat@.len() - bi,
        {
            let b = flat[bi];
            if b.depth <= du {
                snap.push((b.x1, b.y1, b.x2, b.y2));
            }
            proof {
                let pre = flat@.take(bi as int);
                assert(flat@.take(bi + 1) =~= pre.push(flat@[bi as int]));
                pre.lemma_filter_push(flat@[bi as int], depth_at_most(d as int));
                assert(snap@ =~= snapshot_at(flat@.take(bi + 1), d as int));
            }
            bi = bi + 1;
        }
        proof {
            assert(flat@.take(flat@.len() as int) =~= flat@);
        }
        let count = snap.len();
        iters.push(Iteration { iteration: du, branch_count: count, branches: snap });
        d = d + 1;
    }
    iters
}

} // verus!
