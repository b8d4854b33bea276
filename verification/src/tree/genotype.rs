//! The arena-encoded tree genotype.
//!
//! A program is a flat vector of labels in pre-order layout together with a
//! derived parent-to-children index. The index is always rebuilt wholesale
//! from the arena by [`TreeGenotype::construct_children`]; structural
//! operators splice the arena and rebuild, they never patch the index.
use vstd::prelude::*;
use std::collections::HashMap;

use crate::operators::sampler::OperatorSampler;
use crate::tree::encoding::{
    arity_of, arity_seq, cc_step, child_seq, children_model, children_of, code_from, covers,
    find_op, labels_of, lemma_child_cover, lemma_child_in_parent, lemma_child_list_weight,
    lemma_children_model, lemma_code_determined, lemma_find_op, lemma_stack_weight_append,
    lemma_stack_weight_nonneg, lemma_valid_subtree_ok, lemma_walk_bounds, map_push, nth_child, size_at,
    stack_weight, subtree_end, subtree_ok, valid, walk,
};

verus! {

broadcast use vstd::std_specs::hash::group_hash_axioms;

/// The children index of a hash map, as a map to sequences.
pub open spec fn view_kids(m: Map<usize, Vec<usize>>) -> Map<usize, Seq<usize>> {
    Map::new(|k: usize| m.contains_key(k), |k: usize| m[k]@)
}

/// Tree genotype: pre-order arena of labels plus the derived index from
/// parent position to child positions.
#[derive(Debug)]
pub struct TreeGenotype {
    arena: Vec<String>,
    children: HashMap<usize, Vec<usize>>,
}

impl TreeGenotype {
    /// The arena's labels.
    pub closed spec fn labels(&self) -> Seq<Seq<char>> {
        labels_of(self.arena@)
    }

    /// The children index.
    pub closed spec fn kids(&self) -> Map<usize, Seq<usize>> {
        view_kids(self.children@)
    }

    /// The arity sequence the tree's own index implies: the number of
    /// children recorded under each position.
    pub open spec fn code(&self) -> Seq<nat> {
        code_from(self.labels().len(), self.kids())
    }

    /// The tree is a well-formed encoding: its implied arity sequence is a
    /// complete tree and its index is exactly the derived one.
    pub open spec fn wf(&self) -> bool {
        &&& valid(self.code())
        &&& self.kids() == children_of(self.code())
    }

    /// The tree is well-formed for a catalog: under the catalog's arities
    /// the arena is a complete tree and the index is the derived one.
    pub open spec fn wf_for(&self, ops: Seq<Seq<char>>, ars: Seq<usize>) -> bool {
        &&& valid(arity_seq(ops, ars, self.labels()))
        &&& self.kids() == children_of(arity_seq(ops, ars, self.labels()))
    }

    /// Creates a tree from an arena and a children index.
    pub fn new(arena: Vec<String>, children: HashMap<usize, Vec<usize>>) -> (r: Self)
        ensures
            r.labels() == labels_of(arena@),
            r.kids() == view_kids(children@),
    {
        Self { arena, children }
    }

    /// Creates a tree from an arena alone, with an empty children index.
    pub fn with_arena(arena: Vec<String>) -> (r: Self)
        ensures
            r.labels() == labels_of(arena@),
            r.kids() == Map::<usize, Seq<usize>>::empty(),
    {
        let r = Self { arena, children: HashMap::new() };
        proof {
            assert(r.kids() =~= Map::<usize, Seq<usize>>::empty());
        }
        r
    }

    pub fn arena(&self) -> (r: &Vec<String>)
        ensures
            labels_of(r@) == self.labels(),
    {
        &self.arena
    }

    pub fn arena_mut(&mut self) -> (r: &mut Vec<String>)
        ensures
            labels_of((*r)@) == old(self).labels(),
            final(self).labels() == labels_of((*final(r))@),
            final(self).kids() == old(self).kids(),
    {
        &mut self.arena
    }

    pub fn children(&self) -> (r: &HashMap<usize, Vec<usize>>)
        ensures
            view_kids(r@) == self.kids(),
    {
        &self.children
    }

    pub fn children_mut(&mut self) -> (r: &mut HashMap<usize, Vec<usize>>)
        ensures
            view_kids((*r)@) == old(self).kids(),
            final(self).kids() == view_kids((*final(r))@),
            final(self).labels() == old(self).labels(),
    {
        &mut self.children
    }

    /// A tree well-formed for some catalog is well-formed in itself, and the
    /// catalog's arity sequence is the one its index implies.
    pub proof fn lemma_wf_for(&self, ops: Seq<Seq<char>>, ars: Seq<usize>)
        requires
            self.wf_for(ops, ars),
            self.labels().len() <= usize::MAX,
        ensures
            self.wf(),
            self.code() == arity_seq(ops, ars, self.labels()),
    {
        let ar = arity_seq(ops, ars, self.labels());
        lemma_code_determined(ar);
    }

    /// Index of the last node of the subtree rooted at `root`: a depth-first
    /// walk along the children index, tracking the largest index visited.
    /// On a well-formed tree the subtree occupies exactly the contiguous
    /// range from `root` to the result.
    #[verifier::loop_isolation(false)]
    pub fn subtree(&self, root: usize) -> (r: usize)
        requires
            self.wf(),
            (root as int) < self.labels().len(),
        ensures
            r as int == subtree_end(self.code(), root as int),
            root <= r,
            (r as int) < self.labels().len(),
    {
        let ghost ar = self.code();
        let ghost end = subtree_end(ar, root as int);
        let n = self.arena.len();
        proof {
            assert(ar.len() == self.labels().len());
            assert(ar.len() == n);
            lemma_valid_subtree_ok(ar, root as int);
            lemma_walk_bounds(ar, root as int, 1);
        }
        let mut stack: Vec<usize> = Vec::new();
        stack.push(root);
        let mut last_visited: usize = root;
        proof {
            assert(stack@ =~= seq![root]);
            assert(stack@.drop_last() =~= Seq::<usize>::empty());
            assert(stack@[0] == root);
        }
        while stack.len() > 0
            invariant
                forall|t: int|
                    0 <= t < stack@.len() ==> root <= #[trigger] stack@[t] && subtree_ok(
                        ar,
                        stack@[t] as int,
                    ) && walk(ar, stack@[t] as int, 1) <= end + 1,
                root <= last_visited,
                last_visited as int <= end,
                (exists|t: int|
                    0 <= t < stack@.len() && (#[trigger] stack@[t] as int) <= end && end < walk(
                        ar,
                        stack@[t] as int,
                        1,
                    )) || last_visited as int == end,
            decreases stack_weight(ar, stack@),
        {
            let ghost stack0 = stack@;
            proof {
                lemma_stack_weight_nonneg(ar, stack0);
            }
            let index = stack.pop().unwrap();
            proof {
                assert(stack@ =~= stack0.drop_last());
                assert(stack0.last() == index);
                assert(stack_weight(ar, stack0) == stack_weight(ar, stack@) + size_at(
                    ar,
                    index as int,
                ));
            }
            proof {
                assert(subtree_ok(ar, index as int));
                lemma_walk_bounds(ar, index as int, 1);
                assert(index as int <= end);
            }
            if index > last_visited {
                last_visited = index;
            }
            let ghost stack1 = stack@;
            let kid_list = self.children.get(&index);
            match kid_list {
                Some(kids_vec) => {
                    proof {
                        assert(self.kids().contains_key(index));
                        assert(self.kids()[index] == kids_vec@);
                        assert(children_of(ar).contains_key(index));
                        assert(ar[index as int] > 0);
                        assert(kids_vec@ == child_seq(ar, index as int));
                    }
                    let mut t: usize = 0;
                    while t < kids_vec.len()
                        invariant
                            t <= kids_vec@.len(),
                            stack@ =~= stack1 + kids_vec@.take(t as int),
                        decreases kids_vec@.len() - t,
                    {
                        stack.push(kids_vec[t]);
                        t = t + 1;
                        proof {
                            assert(stack@ =~= stack1 + kids_vec@.take(t as int));
                        }
                    }
                    proof {
                        assert(kids_vec@.take(kids_vec@.len() as int) =~= kids_vec@);
                        assert(stack@ =~= stack1 + child_seq(ar, index as int));
                        lemma_stack_weight_append(ar, stack1, child_seq(ar, index as int));
                        lemma_child_list_weight(ar, index as int);
                        assert(stack_weight(ar, stack@) == stack_weight(ar, stack0) - 1);
                        assert forall|u: int| 0 <= u < stack@.len() implies root <= #[trigger] stack@[u]
                            && subtree_ok(ar, stack@[u] as int) && walk(ar, stack@[u] as int, 1)
                            <= end + 1 by {
                            if u >= stack1.len() {
                                let v = u - stack1.len();
                                lemma_child_in_parent(ar, index as int, v);
                                assert(stack@[u] == child_seq(ar, index as int)[v]);
                                assert(0 < nth_child(ar, index as int, v) <= ar.len());
                            }
                        }
                    }
                },
                None => {
                    proof {
                        assert(!self.kids().contains_key(index));
                        assert(!children_of(ar).contains_key(index));
                        assert(ar[index as int] == 0);
                        assert(walk(ar, index as int, 1) == walk(ar, index as int + 1, 0));
                        assert(walk(ar, index as int, 1) == index + 1);
                        lemma_stack_weight_nonneg(ar, stack@);
                    }
                },
            }
            proof {
                // the covering invariant survives the step
                if last_visited as int != end {
                    let t0 = choose|t0: int|
                        0 <= t0 < stack0.len() && (#[trigger] stack0[t0] as int) <= end && end
                            < walk(ar, stack0[t0] as int, 1);
                    if t0 < stack0.len() - 1 {
                        assert(stack@[t0] == stack0[t0]);
                    } else {
                        // the popped entry covered the end
                        assert(stack0[t0] == index);
                        if index as int == end {
                            assert(last_visited as int == end);
                        } else {
                            assert(index < end);
                            assert(ar[index as int] > 0) by {
                                if ar[index as int] == 0 {
                                    assert(walk(ar, index as int, 1) == walk(
                                        ar,
                                        index as int + 1,
                                        0,
                                    ));
                                }
                            }
                            lemma_child_cover(ar, index as int, end, 0);
                            let u = choose|u: int| covers(ar, index as int, u, end);
                            lemma_child_in_parent(ar, index as int, u);
                            assert(0 < nth_child(ar, index as int, u) <= ar.len());
                            assert(stack@[stack1.len() + u] == child_seq(ar, index as int)[u]);
                            assert((stack@[stack1.len() + u] as int) <= end && end < walk(
                                ar,
                                stack@[stack1.len() + u] as int,
                                1,
                            ));
                        }
                    }
                }
            }
        }
        last_visited
    }

    /// Reconstructs the parent-to-children index from the arena alone, using
    /// only the arity each label has in the sampler's catalog: the arena is
    /// parsed as a prefix string with a stack of open slots, each slot naming
    /// the parent it will fill.
    pub fn construct_children(&self, sampler: &OperatorSampler) -> (r: HashMap<usize, Vec<usize>>)
        requires
            sampler.wf(),
        ensures
            view_kids(r@) == children_model(
                arity_seq(sampler.ops(), sampler.ars(), self.labels()),
            ),
            valid(arity_seq(sampler.ops(), sampler.ars(), self.labels())) ==> view_kids(r@)
                == children_of(arity_seq(sampler.ops(), sampler.ars(), self.labels())),
    {
        let ghost ar = arity_seq(sampler.ops(), sampler.ars(), self.labels());
        let n = self.arena.len();
        proof {
            assert(ar.len() == n);
        }
        let mut children: HashMap<usize, Vec<usize>> = HashMap::new();
        let mut stack: Vec<usize> = Vec::new();
        stack.push(0);
        let mut current: usize = 0;
        proof {
            assert(stack@ =~= seq![0usize]);
            assert(view_kids(children@) =~= Map::<usize, Seq<usize>>::empty());
        }
        while stack.len() > 0 && current < self.arena.len()
            invariant
                sampler.wf(),
                ar == arity_seq(sampler.ops(), sampler.ars(), self.labels()),
                ar.len() == self.arena@.len(),
                current <= self.arena@.len(),
                cc_step(ar, stack@, current as int, view_kids(children@)) == children_model(ar),
            decreases self.arena@.len() - current,
        {
            let ghost stack0 = stack@;
            let ghost acc0 = view_kids(children@);
            let parent = stack.pop().unwrap();
            if parent != current {
                let mut lst = match children.remove(&parent) {
                    Some(v) => v,
                    None => Vec::new(),
                };
                lst.push(current);
                children.insert(parent, lst);
                proof {
                    assert(view_kids(children@) =~= map_push(acc0, parent, current));
                }
            }
            let label = &self.arena[current];
            proof {
                assert(self.labels()[current as int] == self.arena@[current as int]@);
            }
            let pos = position_of(sampler.operators(), label);
            let a: usize = match pos {
                Some(j) => {
                    let ars_ref = sampler.arities();
                    proof {
                        sampler.lemma_wf_lens();
                        assert(j < ars_ref@.len());
                    }
                    ars_ref[j]
                },
                None => 0,
            };
            proof {
                lemma_find_op(sampler.ops(), label@);
                assert(a == arity_of(sampler.ops(), sampler.ars(), self.labels()[current as int]));
                assert(ar[current as int] == a);
            }
            let ghost stack1 = stack@;
            let mut t: usize = 0;
            while t < a
                invariant
                    t <= a,
                    stack@ =~= stack1 + Seq::new(t as nat, |u: int| current),
                decreases a - t,
            {
                stack.push(current);
                t = t + 1;
                proof {
                    assert(stack@ =~= stack1 + Seq::new(t as nat, |u: int| current));
                }
            }
            proof {
                assert(stack0.len() > 0);
                assert(stack1 =~= stack0.drop_last());
                assert(stack0.last() == parent);
                let acc1 = if parent as int != current as int {
                    map_push(acc0, parent, current)
                } else {
                    acc0
                };
                assert(view_kids(children@) == acc1);
                assert(stack@ =~= stack0.drop_last() + Seq::new(ar[current as int], |u: int| current));
                assert(cc_step(ar, stack0, current as int, acc0) == cc_step(
                    ar,
                    stack@,
                    current as int + 1,
                    acc1,
                ));
            }
            current = current + 1;
        }
        proof {
            assert(cc_step(ar, stack@, current as int, view_kids(children@)) == view_kids(
                children@,
            ));
            if valid(ar) {
                lemma_children_model(ar);
            }
        }
        children
    }
}

impl Clone for TreeGenotype {
    /// Clones arena and index; the copy carries the same labels and edges.
    fn clone(&self) -> (r: Self)
        ensures
            r.labels() == self.labels(),
            r.kids() == self.kids(),
    {
        let r = TreeGenotype { arena: clone_labels(&self.arena), children: self.children.clone() };
        proof {
            assert(r.kids() =~= self.kids());
        }
        r
    }
}

impl PartialEq for TreeGenotype {
    /// Structural identity is the arena alone; the children index is a
    /// derived cache and takes no part in it.
    fn eq(&self, other: &Self) -> (r: bool) {
        if self.arena.len() != other.arena.len() {
            return false;
        }
        let mut i: usize = 0;
        while i < self.arena.len()
            invariant
                self.labels().len() == other.labels().len(),
                i <= self.labels().len(),
                forall|k: int| 0 <= k < i ==> self.labels()[k] == other.labels()[k],
            decreases self.labels().len() - i,
        {
            proof {
                assert(self.labels()[i as int] == self.arena@[i as int]@);
                assert(other.labels()[i as int] == other.arena@[i as int]@);
            }
            if self.arena[i] != other.arena[i] {
                return false;
            }
            i = i + 1;
        }
        proof {
            assert(self.labels() =~= other.labels());
        }
        true
    }
}

impl vstd::std_specs::cmp::PartialEqSpecImpl for TreeGenotype {
    open spec fn obeys_eq_spec() -> bool {
        true
    }

    open spec fn eq_spec(&self, other: &TreeGenotype) -> bool {
        self.labels() == other.labels()
    }
}

impl Eq for TreeGenotype {

}

impl Default for TreeGenotype {
    /// The empty tree.
    fn default() -> (r: Self)
        ensures
            r.labels() == Seq::<Seq<char>>::empty(),
            r.kids() == Map::<usize, Seq<usize>>::empty(),
    {
        let r = TreeGenotype { arena: Vec::new(), children: HashMap::new() };
        proof {
            assert(r.labels() =~= Seq::<Seq<char>>::empty());
            assert(r.kids() =~= Map::<usize, Seq<usize>>::empty());
        }
        r
    }
}

impl TreeGenotype {
    /// Box-drawing text rendering of the tree, for debugging and logs; the
    /// empty tree renders as the empty string.
    pub fn render(&self) -> (r: String)
        ensures
            self.labels().len() == 0 ==> r@ == Seq::<char>::empty(),
    {
        let mut out = String::new();
        if self.arena.len() > 0 {
            let fuel = self.arena.len();
            let empty_prefix = String::new();
            self.render_node(0, &empty_prefix, &empty_prefix, &mut out, fuel);
        }
        out
    }

    /// Writes one node and, bounded by `fuel`, its recorded descendants.
    fn render_node(
        &self,
        node_index: usize,
        prefix: &String,
        child_prefix: &String,
        out: &mut String,
        fuel: usize,
    )
        requires
            node_index < self.labels().len(),
        decreases fuel,
    {
        out.append(prefix.as_str());
        out.append(self.arena[node_index].as_str());
        out.append("
");
        let kid_list = self.children.get(&node_index);
        match kid_list {
            Some(kids_vec) => {
                let child_count = kids_vec.len();
                let mut i: usize = 0;
                while i < child_count
                    invariant
                        child_count == kids_vec@.len(),
                    decreases child_count - i,
                {
                    let is_last = i == child_count - 1;
                    let mut new_prefix = child_prefix.clone();
                    let mut new_child_prefix = child_prefix.clone();
                    if is_last {
                        new_prefix.append("\u{2514}\u{2500}\u{2500} ");
                        new_child_prefix.append("    ");
                    } else {
                        new_prefix.append("\u{251c}\u{2500}\u{2500} ");
                        new_child_prefix.append("\u{2502}   ");
                    }
                    let child_index = kids_vec[i];
                    if child_index < self.arena.len() && fuel > 0 {
                        self.render_node(child_index, &new_prefix, &new_child_prefix, out, fuel
                            - 1);
                    }
                    i = i + 1;
                }
            },
            None => {},
        }
    }
}

/// Clones a label vector; clones carry the same characters.
pub(crate) fn clone_labels(v: &Vec<String>) -> (r: Vec<String>)
    ensures
        r@ == v@,
{
    let mut r: Vec<String> = Vec::new();
    let mut i: usize = 0;
    while i < v.len()
        invariant
            i <= v@.len(),
            r@ =~= v@.take(i as int),
        decreases v@.len() - i,
    {
        r.push(v[i].clone());
        i = i + 1;
        proof {
            assert(r@ =~= v@.take(i as int));
        }
    }
    proof {
        assert(v@.take(v@.len() as int) =~= v@);
    }
    r
}

/// First index of `ops` whose label equals `label`, as the catalog lookup
/// model counts it.
pub(crate) fn position_of(ops: &Vec<String>, label: &String) -> (r: Option<usize>)
    ensures
        match r {
            Some(j) => j < ops@.len() && find_op(labels_of(ops@), label@) == j as int,
            None => find_op(labels_of(ops@), label@) == -1,
        },
{
    let mut i: usize = 0;
    while i < ops.len()
        invariant
            i <= ops@.len(),
            forall|k: int| 0 <= k < i ==> labels_of(ops@)[k] != label@,
        decreases ops@.len() - i,
    {
        proof {
            assert(labels_of(ops@)[i as int] == ops@[i as int]@);
        }
        if ops[i] == *label {
            proof {
                lemma_find_op(labels_of(ops@), label@);
                let f = find_op(labels_of(ops@), label@);
                assert(labels_of(ops@)[i as int] == label@);
                if f < 0 {
                    assert(labels_of(ops@)[i as int] != label@);
                }
                if f < i {
                    assert(labels_of(ops@)[f] == label@);
                }
                if f > i {
                    assert(labels_of(ops@)[i as int] != label@);
                }
            }
            return Some(i);
        }
        i = i + 1;
    }
    proof {
        assert(i == ops@.len());
    }
    proof {
        lemma_find_op(labels_of(ops@), label@);
        let f = find_op(labels_of(ops@), label@);
        if f >= 0 {
            assert(labels_of(ops@)[f] == label@);
        }
    }
    None
}

/// Appends clones of `src[from..to]` to `dst`; clones carry the same
/// characters.
pub(crate) fn extend_labels(dst: &mut Vec<String>, src: &Vec<String>, from: usize, to: usize)
    requires
        from <= to,
        (to as int) <= src@.len(),
    ensures
        labels_of(final(dst)@) == labels_of(old(dst)@) + labels_of(src@).subrange(
            from as int,
            to as int,
        ),
{
    let mut i: usize = from;
    proof {
        assert(labels_of(dst@) =~= labels_of(dst@) + labels_of(src@).subrange(
            from as int,
            from as int,
        ));
    }
    while i < to
        invariant
            from <= i <= to,
            (to as int) <= src@.len(),
            labels_of(dst@) =~= labels_of(old(dst)@) + labels_of(src@).subrange(
                from as int,
                i as int,
            ),
        decreases to - i,
    {
        let ghost prev = dst@;
        dst.push(src[i].clone());
        i = i + 1;
        proof {
            let target = labels_of(old(dst)@) + labels_of(src@).subrange(from as int, i as int);
            assert(dst@ =~= prev.push(dst@[prev.len() as int]));
            assert(dst@[prev.len() as int]@ == src@[i - 1]@);
            assert(labels_of(prev) =~= labels_of(old(dst)@) + labels_of(src@).subrange(
                from as int,
                i - 1,
            ));
            assert(labels_of(prev).len() == prev.len());
            assert(labels_of(old(dst)@).len() == old(dst)@.len());
            assert(labels_of(src@).len() == src@.len());
            assert(target.len() == prev.len() + 1);
            assert forall|j: int| 0 <= j < dst@.len() implies labels_of(dst@)[j] == target[j] by {
                assert(labels_of(dst@)[j] == dst@[j]@);
                if j < prev.len() {
                    assert(dst@[j] == prev[j]);
                    assert(labels_of(prev)[j] == prev[j]@);
                    assert(labels_of(prev)[j] == (labels_of(old(dst)@) + labels_of(src@).subrange(
                        from as int,
                        i - 1,
                    ))[j]);
                    assert(target[j] == (labels_of(old(dst)@) + labels_of(src@).subrange(
                        from as int,
                        i - 1,
                    ))[j]);
                } else {
                    assert(j == prev.len());
                    assert(target[j] == labels_of(src@)[i - 1]);
                    assert(labels_of(src@)[i - 1] == src@[i - 1]@);
                }
            }
            assert(labels_of(dst@) =~= target);
        }
    }
}

} // verus!
