//! The structural laws of the arena encoding, as proved statements.
//!
//! Every generator and variation operator of this library ensures that its
//! output is well-formed for the catalog it was given; the lemmas here say
//! what that buys: the children index matches the arity of every label,
//! a subtree's range holds exactly the nodes reachable from its root, and
//! rebuilding the index from the arena returns exactly the stored index.
use vstd::prelude::*;

use crate::tree::encoding::{
    arity_of, arity_seq, child_seq, child_slot, children_model, children_of, covers,
    lemma_child_cover, lemma_child_in_parent, lemma_child_slot_exists, lemma_child_slot_unique,
    lemma_children_model, lemma_nest, lemma_valid_subtree_ok, lemma_walk_bounds, nth_child,
    subtree_end, valid, walk,
};
use crate::tree::genotype::TreeGenotype;
use crate::tree::init::{lemma_tree_cap_pos, tree_cap};

verus! {

/// Arity consistency: on a tree well-formed for a catalog, every position
/// holds exactly as many children as its label's arity, and a leaf holds
/// no entry at all.
pub proof fn lemma_arity_consistency(
    t: &TreeGenotype,
    ops: Seq<Seq<char>>,
    ars: Seq<usize>,
    p: int,
)
    requires
        t.wf_for(ops, ars),
        t.labels().len() <= usize::MAX,
        0 <= p < t.labels().len(),
    ensures
        arity_of(ops, ars, t.labels()[p]) > 0 ==> t.kids().contains_key(p as usize) && t.kids()[
            p as usize
        ].len() == arity_of(ops, ars, t.labels()[p]),
        arity_of(ops, ars, t.labels()[p]) == 0 ==> !t.kids().contains_key(p as usize),
{
    let ar = arity_seq(ops, ars, t.labels());
    assert(ar[p] == arity_of(ops, ars, t.labels()[p]));
    assert((p as usize) as int == p);
    if ar[p] > 0 {
        assert(children_of(ar).contains_key(p as usize));
        assert(children_of(ar)[p as usize] == child_seq(ar, p));
    }
}

/// `q` stands at position `k` of the child list recorded under `p`.
pub open spec fn kid_slot(kids: Map<usize, Seq<usize>>, p: usize, k: int, q: usize) -> bool {
    kids.contains_key(p) && 0 <= k < kids[p].len() && kids[p][k] == q
}

/// Arity consistency, the counting half: in a tree well-formed for a
/// catalog, every position but the root stands in exactly one child list,
/// at exactly one slot.
pub proof fn lemma_unique_parent(t: &TreeGenotype, ops: Seq<Seq<char>>, ars: Seq<usize>, q: usize)
    requires
        t.wf_for(ops, ars),
        t.labels().len() <= usize::MAX,
        1 <= (q as int) < t.labels().len(),
    ensures
        exists|p: usize, k: int| kid_slot(t.kids(), p, k, q),
        forall|p1: usize, k1: int, p2: usize, k2: int|
            kid_slot(t.kids(), p1, k1, q) && kid_slot(t.kids(), p2, k2, q) ==> p1 == p2 && k1
                == k2,
{
    let ar = arity_seq(ops, ars, t.labels());
    lemma_valid_subtree_ok(ar, 0);
    assert(walk(ar, 0, 1) == ar.len());
    lemma_child_slot_exists(ar, 0, q as int);
    let (p, k) = choose|p: int, k: int| child_slot(ar, p, k, q as int);
    lemma_valid_subtree_ok(ar, p);
    lemma_child_in_parent(ar, p, k);
    assert(children_of(ar).contains_key(p as usize));
    assert(children_of(ar)[p as usize] == child_seq(ar, p));
    assert(child_seq(ar, p)[k] == q);
    assert(kid_slot(t.kids(), p as usize, k, q));
    assert forall|p1: usize, k1: int, p2: usize, k2: int|
        kid_slot(t.kids(), p1, k1, q) && kid_slot(t.kids(), p2, k2, q) implies p1 == p2 && k1
        == k2 by {
        assert(children_of(ar).contains_key(p1) && children_of(ar).contains_key(p2));
        assert(ar[p1 as int] > 0 && ar[p2 as int] > 0);
        lemma_valid_subtree_ok(ar, p1 as int);
        lemma_valid_subtree_ok(ar, p2 as int);
        lemma_child_in_parent(ar, p1 as int, k1);
        lemma_child_in_parent(ar, p2 as int, k2);
        assert(t.kids()[p1][k1] == child_seq(ar, p1 as int)[k1]);
        assert(child_slot(ar, p1 as int, k1, q as int));
        assert(child_slot(ar, p2 as int, k2, q as int));
        lemma_child_slot_unique(ar, q as int, p1 as int, k1, p2 as int, k2);
    }
}

/// The root of a well-formed tree stands in no child list: every recorded
/// child index exceeds its parent's, and the root's index is least.
pub proof fn lemma_root_not_child(t: &TreeGenotype, ops: Seq<Seq<char>>, ars: Seq<usize>)
    requires
        t.wf_for(ops, ars),
        t.labels().len() <= usize::MAX,
    ensures
        forall|p: usize, k: int| !kid_slot(t.kids(), p, k, 0usize),
{
    let ar = arity_seq(ops, ars, t.labels());
    assert forall|p: usize, k: int| !kid_slot(t.kids(), p, k, 0usize) by {
        if kid_slot(t.kids(), p, k, 0usize) {
            assert(children_of(ar).contains_key(p));
            lemma_valid_subtree_ok(ar, p as int);
            lemma_child_in_parent(ar, p as int, k);
            assert(child_seq(ar, p as int)[k] == 0usize);
        }
    }
}

/// One parent-to-child edge of a children index.
pub open spec fn child_edge(kids: Map<usize, Seq<usize>>, a: usize, b: usize) -> bool {
    kids.contains_key(a) && kids[a].contains(b)
}

/// `b` is reachable from `a` along at most `fuel` child edges.
pub open spec fn reaches(kids: Map<usize, Seq<usize>>, a: usize, b: usize, fuel: nat) -> bool
    decreases fuel,
{
    a == b || (fuel > 0 && exists|c: usize|
        #[trigger] child_edge(kids, a, c) && reaches(kids, c, b, (fuel - 1) as nat))
}

/// More fuel reaches no less.
pub proof fn lemma_reaches_mono(
    kids: Map<usize, Seq<usize>>,
    a: usize,
    b: usize,
    f1: nat,
    f2: nat,
)
    requires
        reaches(kids, a, b, f1),
        f1 <= f2,
    ensures
        reaches(kids, a, b, f2),
    decreases f1,
{
    if a != b {
        let c = choose|c: usize|
            #[trigger] child_edge(kids, a, c) && reaches(kids, c, b, (f1 - 1) as nat);
        lemma_reaches_mono(kids, c, b, (f1 - 1) as nat, (f2 - 1) as nat);
    }
}

/// Contiguity, inward: every index of the subtree range is reachable from
/// the subtree's root along child edges.
pub proof fn lemma_range_reachable(ar: Seq<nat>, root: int, q: int)
    requires
        valid(ar),
        ar.len() <= usize::MAX,
        0 <= root < ar.len(),
        root <= q <= subtree_end(ar, root),
    ensures
        reaches(children_of(ar), root as usize, q as usize, (subtree_end(ar, root) - root) as nat),
    decreases walk(ar, root, 1) - root,
{
    lemma_valid_subtree_ok(ar, root);
    let kids = children_of(ar);
    if q != root {
        assert(ar[root] > 0) by {
            if ar[root] == 0 {
                assert(walk(ar, root, 1) == walk(ar, root + 1, 0));
            }
        }
        assert(nth_child(ar, root, 0) == root + 1);
        lemma_child_cover(ar, root, q, 0);
        let u = choose|u: int| covers(ar, root, u, q);
        lemma_child_in_parent(ar, root, u);
        let c = nth_child(ar, root, u);
        lemma_valid_subtree_ok(ar, c);
        lemma_walk_bounds(ar, c, 1);
        lemma_range_reachable(ar, c, q);
        assert(child_edge(kids, root as usize, c as usize)) by {
            assert(kids.contains_key(root as usize));
            assert(kids[root as usize][u] == child_seq(ar, root)[u]);
            assert(child_seq(ar, root)[u] == c as usize);
            assert(kids[root as usize].contains(c as usize));
        }
        lemma_reaches_mono(
            kids,
            c as usize,
            q as usize,
            (subtree_end(ar, c) - c) as nat,
            (subtree_end(ar, root) - root - 1) as nat,
        );
        assert(reaches(kids, root as usize, q as usize, (subtree_end(ar, root) - root) as nat));
    }
}

/// Contiguity, outward: whatever is reachable from an index along child
/// edges stays inside that index's subtree range.
pub proof fn lemma_reachable_in_range(ar: Seq<nat>, root: int, q: usize, fuel: nat)
    requires
        valid(ar),
        ar.len() <= usize::MAX,
        0 <= root < ar.len(),
        reaches(children_of(ar), root as usize, q, fuel),
    ensures
        root <= q as int <= subtree_end(ar, root),
    decreases fuel,
{
    lemma_valid_subtree_ok(ar, root);
    let kids = children_of(ar);
    if q as int != root {
        let c = choose|c: usize|
            #[trigger] child_edge(kids, root as usize, c) && reaches(kids, c, q, (fuel - 1) as nat);
        assert(kids.contains_key(root as usize));
        assert(ar[root] > 0);
        let u = choose|u: int|
            0 <= u < kids[root as usize].len() && #[trigger] kids[root as usize][u] == c;
        assert(child_seq(ar, root)[u] == c);
        lemma_child_in_parent(ar, root, u);
        assert(c as int == nth_child(ar, root, u));
        lemma_reachable_in_range(ar, c as int, q, (fuel - 1) as nat);
        lemma_nest(ar, root, c as int);
    }
}

/// Round trip: reconstructing the children index from a well-formed
/// tree's arena gives back exactly the index the tree stores — the index
/// the parser machine derives is the stored one.
pub proof fn lemma_round_trip(t: &TreeGenotype, ops: Seq<Seq<char>>, ars: Seq<usize>)
    requires
        t.wf_for(ops, ars),
        t.labels().len() <= usize::MAX,
    ensures
        children_model(arity_seq(ops, ars, t.labels())) == t.kids(),
{
    lemma_children_model(arity_seq(ops, ars, t.labels()));
}

/// For a catalog whose largest arity is two, the depth-`k` node capacity
/// is one less than the `k + 1`-st power of two.
pub proof fn lemma_tree_cap_binary(k: nat)
    ensures
        tree_cap(2, k) == vstd::arithmetic::power2::pow2((k + 1) as nat) - 1,
    decreases k,
{
    vstd::arithmetic::power2::lemma_pow2_unfold((k + 1) as nat);
    if k == 0 {
        assert(vstd::arithmetic::power2::pow2(1) == 2) by {
            vstd::arithmetic::power2::lemma2_to64();
        }
    } else {
        lemma_tree_cap_binary((k - 1) as nat);
        lemma_tree_cap_pos(2, (k - 1) as nat);
    }
}

} // verus!
