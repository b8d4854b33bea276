//! A tree genotype that carries its depth and arity tags alongside each
//! node, in pre-order layout.
use vstd::prelude::*;

use crate::tree::encoding::{
    lemma_child_in_parent, lemma_nth_child_walk, lemma_walk_bounds, nth_child, subtree_end,
    subtree_ok, walk,
};

verus! {

/// A labelled node carrying a value of the embedding algorithm's choice.
#[derive(Debug, Clone)]
pub struct Node<T> {
    idx: String,
    val: T,
}

impl<T> Node<T> {
    /// The node's label.
    pub closed spec fn idx_view(&self) -> Seq<char> {
        self.idx@
    }

    /// Creates a node with the default value of its payload type.
    pub fn new(idx: String) -> (r: Self) where T: Default
        ensures
            r.idx_view() == idx@,
    {
        Self { idx, val: T::default() }
    }
}

/// Pre-order arena of nodes with, for every position, its depth and arity.
#[derive(Debug, Clone)]
pub struct TreeGenotype<T> {
    arena: Vec<Node<T>>,
    depth: Vec<usize>,
    arity: Vec<usize>,
}

impl<T> TreeGenotype<T> {
    /// The arity sequence.
    pub closed spec fn code(&self) -> Seq<nat> {
        self.arity@.map_values(|a: usize| a as nat)
    }

    /// The recorded depths.
    pub closed spec fn depths(&self) -> Seq<usize> {
        self.depth@
    }

    /// The three lists run in parallel.
    pub closed spec fn wf(&self) -> bool {
        self.arena@.len() == self.depth@.len() && self.arena@.len() == self.arity@.len()
    }

    pub fn new(arena: Vec<Node<T>>, depth: Vec<usize>, arity: Vec<usize>) -> (r: Self)
        ensures
            r.code() == arity@.map_values(|a: usize| a as nat),
            r.depths() == depth@,
            r.wf() == (arena@.len() == depth@.len() && arena@.len() == arity@.len()),
    {
        Self { arena, depth, arity }
    }

    pub fn from_tuple(individual: (Vec<Node<T>>, Vec<usize>, Vec<usize>)) -> (r: Self)
        ensures
            r.code() == individual.2@.map_values(|a: usize| a as nat),
            r.depths() == individual.1@,
    {
        Self { arena: individual.0, depth: individual.1, arity: individual.2 }
    }

    pub fn len(&self) -> (r: usize)
        requires
            self.wf(),
        ensures
            r == self.code().len(),
    {
        self.arena.len()
    }

    /// The root node; the tree must not be empty.
    pub fn root(&self) -> &Node<T>
        requires
            self.wf(),
            self.code().len() > 0,
    {
        &self.arena[0]
    }

    /// The recorded depth of the node at `root`.
    pub fn depth(&self, root: usize) -> (r: &usize)
        requires
            (root as int) < self.depths().len(),
        ensures
            *r == self.depths()[root as int],
    {
        &self.depth[root]
    }

    /// The recorded arity of the node at `root`.
    pub fn arity(&self, root: usize) -> (r: &usize)
        requires
            self.wf(),
            (root as int) < self.code().len(),
        ensures
            *r as nat == self.code()[root as int],
    {
        &self.arity[root]
    }

    /// The node at `idx` takes no arguments.
    pub fn is_leaf(&self, idx: usize) -> (r: bool)
        requires
            self.wf(),
            (idx as int) < self.code().len(),
        ensures
            r == (self.code()[idx as int] == 0),
    {
        self.arity[idx] == 0
    }

    pub fn get_tuple(&self) -> (&Vec<Node<T>>, &Vec<usize>, &Vec<usize>) {
        (&self.arena, &self.depth, &self.arity)
    }

    /// Last index of the subtree rooted at `root`, found by recursive
    /// descent along the recorded arities; an index past the arena gives
    /// zero.
    #[verifier::loop_isolation(false)]
    pub fn dfs(&self, root: usize) -> (r: usize)
        requires
            self.wf(),
            (root as int) < self.code().len() ==> subtree_ok(self.code(), root as int),
        ensures
            (root as int) < self.code().len() ==> r as int == subtree_end(
                self.code(),
                root as int,
            ),
            (root as int) >= self.code().len() ==> r == 0,
        decreases walk(self.code(), root as int, 1) - root,
    {
        let ghost ar = self.code();
        if root >= self.arena.len() {
            return 0;
        }
        proof {
            lemma_walk_bounds(ar, root as int, 1);
        }
        let mut start = root;
        let mut end = start;
        let a = self.arity[root];
        let mut k: usize = 0;
        while k < a
            invariant
                a as nat == ar[root as int],
                k <= a,
                start as int == nth_child(ar, root as int, k as int) - 1,
                end == if k == 0 {
                    root
                } else {
                    start
                },
                root <= start,
            decreases a - k,
        {
            proof {
                lemma_child_in_parent(ar, root as int, k as int);
                assert(nth_child(ar, root as int, k as int) <= ar.len());
            }
            let child_root = start + 1;
            proof {
                assert(child_root as int == nth_child(ar, root as int, k as int));
                assert(subtree_ok(ar, child_root as int));
                lemma_walk_bounds(ar, child_root as int, 1);
                assert(walk(ar, child_root as int, 1) <= walk(ar, root as int, 1));
                assert(root < child_root);
            }
            let child_end = self.dfs(child_root);
            proof {
                assert(child_end as int == subtree_end(ar, child_root as int));
                assert(nth_child(ar, root as int, k + 1) == walk(ar, child_root as int, 1));
            }
            end = child_end;
            start = child_end;
            k = k + 1;
        }
        proof {
            if a > 0 {
                lemma_nth_child_walk(ar, root as int, a as int);
                assert(walk(ar, root as int, 1) == walk(ar, root as int + 1, ar[root as int]));
            } else {
                assert(walk(ar, root as int, 1) == walk(ar, root as int + 1, 0));
            }
        }
        end
    }
}

} // verus!
