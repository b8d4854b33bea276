//! A general syntax tree over arbitrary node values: an arena of nodes
//! with an explicit parent-to-children index and the classic traversals.
//! Traversals carry a step budget so that a malformed index cannot make
//! them spin; a proper tree never exhausts it.
use vstd::prelude::*;
use std::collections::{HashMap, HashSet, VecDeque};

verus! {

broadcast use vstd::std_specs::hash::group_hash_axioms;

/// Step budget of a traversal over `n` nodes: one more than the node
/// count, capped at the pointer range as the saturating addition is.
pub open spec fn walk_budget(n: nat) -> nat {
    if n + 1 <= usize::MAX {
        (n + 1) as nat
    } else {
        usize::MAX as nat
    }
}

/// The child list recorded under `cur`, or the empty list.
pub open spec fn kids_of(kids: Map<usize, Seq<usize>>, cur: usize) -> Seq<usize> {
    if kids.contains_key(cur) {
        kids[cur]
    } else {
        Seq::empty()
    }
}

/// The visit order of the parent-first walk: a stack machine that visits
/// the newest open node and opens its recorded children, first child on
/// top, for as many steps as the budget allows. The children index is
/// arbitrary data here, so the walk itself is the order's most direct
/// statement; on a proper tree the budget never runs out.
pub open spec fn preorder_walk(
    kids: Map<usize, Seq<usize>>,
    stack: Seq<usize>,
    acc: Seq<usize>,
    fuel: nat,
) -> Seq<usize>
    decreases fuel,
{
    if stack.len() == 0 || fuel == 0 {
        acc
    } else {
        let cur = stack.last();
        preorder_walk(
            kids,
            stack.drop_last() + kids_of(kids, cur).reverse(),
            acc.push(cur),
            (fuel - 1) as nat,
        )
    }
}

/// The visit order of the children-first walk: the same stack machine, but
/// the start node is withheld as each node is recorded; the caller appends
/// it at the end.
pub open spec fn postorder_walk(
    kids: Map<usize, Seq<usize>>,
    stack: Seq<usize>,
    acc: Seq<usize>,
    fuel: nat,
    start: usize,
) -> Seq<usize>
    decreases fuel,
{
    if stack.len() == 0 || fuel == 0 {
        acc
    } else {
        let cur = stack.last();
        postorder_walk(
            kids,
            stack.drop_last() + kids_of(kids, cur).reverse(),
            if cur != start {
                acc.push(cur)
            } else {
                acc
            },
            (fuel - 1) as nat,
            start,
        )
    }
}

/// One left-spine descent of the infix walk: from `current`, unvisited
/// nodes pile on the stack and the descent follows first children, until
/// it meets a visited node, the sentinel (the largest index, standing for
/// no node), or the end of its budget.
pub open spec fn spine_walk(
    kids: Map<usize, Seq<usize>>,
    visited: Set<usize>,
    stack: Seq<usize>,
    current: usize,
    fuel: nat,
) -> (Seq<usize>, usize)
    decreases fuel,
{
    if current == usize::MAX || fuel == 0 || visited.contains(current) {
        (stack, current)
    } else {
        let ks = kids_of(kids, current);
        spine_walk(
            kids,
            visited,
            stack.push(current),
            if ks.len() > 0 {
                ks[0]
            } else {
                usize::MAX
            },
            (fuel - 1) as nat,
        )
    }
}

/// The visit order of the infix walk: descend the left spine, visit the
/// node on top of the stack, then continue from its second child.
pub open spec fn inorder_walk(
    kids: Map<usize, Seq<usize>>,
    visited: Set<usize>,
    stack: Seq<usize>,
    current: usize,
    acc: Seq<usize>,
    fuel: nat,
    spine_fuel: nat,
) -> Seq<usize>
    decreases fuel,
{
    if (stack.len() == 0 && current == usize::MAX) || fuel == 0 {
        acc
    } else {
        let descended = spine_walk(kids, visited, stack, current, spine_fuel);
        let st1 = descended.0;
        if st1.len() == 0 {
            inorder_walk(kids, visited, st1, usize::MAX, acc, (fuel - 1) as nat, spine_fuel)
        } else {
            let top = st1.last();
            let ks = kids_of(kids, top);
            inorder_walk(
                kids,
                visited.insert(top),
                st1.drop_last(),
                if ks.len() > 1 {
                    ks[1]
                } else {
                    usize::MAX
                },
                acc.push(top),
                (fuel - 1) as nat,
                spine_fuel,
            )
        }
    }
}

/// Step budget of the infix walk over `n` nodes: a descent budget more
/// than [`walk_budget`] allows, with the same saturation.
pub open spec fn long_walk_budget(n: nat) -> nat {
    if walk_budget(n) + n <= usize::MAX {
        (walk_budget(n) + n) as nat
    } else {
        usize::MAX as nat
    }
}

/// The visit order of the level-order walk: a queue machine that visits
/// the oldest open node and appends its recorded children in stored order.
pub open spec fn level_walk(
    kids: Map<usize, Seq<usize>>,
    queue: Seq<usize>,
    acc: Seq<usize>,
    fuel: nat,
) -> Seq<usize>
    decreases fuel,
{
    if queue.len() == 0 || fuel == 0 {
        acc
    } else {
        let cur = queue.first();
        level_walk(kids, queue.drop_first() + kids_of(kids, cur), acc.push(cur), (fuel - 1) as nat)
    }
}

/// Traversal orders of [`SyntaxTree::dfs`].
#[derive(PartialEq, Eq, Structural)]
pub enum Order {
    /// Parent before its children.
    Prefix,
    /// Children around their parent.
    Infix,
    /// Children before their parent.
    Postfix,
}

/// A node with a label, a value, and an optional parent link.
pub struct Node<T> {
    idx: String,
    val: T,
    parent: Option<usize>,
}

impl<T> Node<T> {
    /// The node's label.
    pub closed spec fn idx_view(&self) -> Seq<char> {
        self.idx@
    }

    /// The recorded parent index.
    pub closed spec fn parent_spec(&self) -> Option<usize> {
        self.parent
    }

    pub fn new(idx: String, val: T) -> (r: Self)
        ensures
            r.idx_view() == idx@,
            r.parent_spec() is None,
    {
        Self { idx, val, parent: None }
    }
}

/// Arena-backed tree with an explicit children index.
pub struct SyntaxTree<T> {
    arena: Vec<Node<T>>,
    children: HashMap<usize, Vec<usize>>,
}

impl<T> SyntaxTree<T> {
    /// How many nodes the arena holds.
    pub closed spec fn size_spec(&self) -> nat {
        self.arena@.len()
    }

    /// The children index, as a map to sequences.
    pub closed spec fn kids(&self) -> Map<usize, Seq<usize>> {
        Map::new(|k: usize| self.children@.contains_key(k), |k: usize| self.children@[k]@)
    }

    /// An empty tree.
    pub fn new() -> (r: Self)
        ensures
            r.size_spec() == 0,
            r.kids() == Map::<usize, Seq<usize>>::empty(),
    {
        let r = Self { arena: Vec::new(), children: HashMap::new() };
        proof {
            assert(r.kids() =~= Map::<usize, Seq<usize>>::empty());
        }
        r
    }

    /// Appends a node; when a child list comes with it, the list is
    /// recorded under the new node's index.
    pub fn insert(&mut self, node: Node<T>, children: Option<Vec<usize>>)
        ensures
            final(self).size_spec() == old(self).size_spec() + 1,
            children is Some ==> final(self).kids() == old(self).kids().insert(
                (old(self).size_spec()) as usize,
                children.unwrap()@,
            ),
            children is None ==> final(self).kids() == old(self).kids(),
    {
        self.arena.push(node);
        match children {
            Some(child_list) => {
                let key = self.arena.len() - 1;
                self.children.insert(key, child_list);
                proof {
                    assert(self.kids() =~= old(self).kids().insert(
                        (old(self).size_spec()) as usize,
                        self.children@[key]@,
                    ));
                }
            },
            None => {
                proof {
                    assert(self.kids() =~= old(self).kids());
                }
            },
        }
    }

    /// Removes the node at `idx` from the arena and drops the child list
    /// recorded under that index; later nodes shift down by one.
    pub fn delete(&mut self, idx: usize)
        requires
            (idx as int) < old(self).size_spec(),
        ensures
            final(self).size_spec() == old(self).size_spec() - 1,
    {
        self.arena.remove(idx);
        self.children.remove(&idx);
    }

    /// Walks from `idx` in the asked order; an index outside the arena
    /// yields nothing. The prefix and postfix orders are pinned whole by
    /// the walk machines: parent-first with children opened first child
    /// first, and the same order with the start node moved to the end.
    pub fn dfs(&self, idx: usize, order: Order) -> (r: Option<Vec<usize>>)
        ensures
            r is Some <==> (idx as int) < self.size_spec(),
            order == Order::Prefix && (idx as int) < self.size_spec() ==> r.unwrap()@.len() >= 1
                && r.unwrap()@[0] == idx,
            order == Order::Postfix && (idx as int) < self.size_spec() ==> r.unwrap()@.len() >= 1
                && r.unwrap()@.last() == idx,
            order == Order::Prefix && (idx as int) < self.size_spec() ==> r.unwrap()@
                == preorder_walk(self.kids(), seq![idx], Seq::empty(), walk_budget(self.size_spec())),
            order == Order::Postfix && (idx as int) < self.size_spec() ==> r.unwrap()@
                == postorder_walk(
                self.kids(),
                seq![idx],
                Seq::empty(),
                walk_budget(self.size_spec()),
                idx,
            ).push(idx),
            order == Order::Infix && (idx as int) < self.size_spec() ==> r.unwrap()@
                == inorder_walk(
                self.kids(),
                Set::empty(),
                Seq::empty(),
                idx,
                Seq::empty(),
                long_walk_budget(self.size_spec()),
                walk_budget(self.size_spec()),
            ),
    {
        if idx >= self.arena.len() {
            return None;
        }
        match order {
            Order::Prefix => Some(self.preorder(idx)),
            Order::Postfix => Some(self.postorder(idx)),
            Order::Infix => Some(self.inorder(idx)),
        }
    }

    /// Parent-first traversal from `idx`: exactly the prefix walk machine.
    fn preorder(&self, idx: usize) -> (r: Vec<usize>)
        ensures
            r@.len() >= 1,
            r@[0] == idx,
            r@ == preorder_walk(self.kids(), seq![idx], Seq::empty(), walk_budget(self.size_spec())),
    {
        let mut stack: Vec<usize> = Vec::new();
        let mut result: Vec<usize> = Vec::new();
        stack.push(idx);
        let mut fuel = self.arena.len().saturating_add(1);
        proof {
            assert(fuel as nat == walk_budget(self.size_spec()));
            assert(stack@ =~= seq![idx]);
            assert(result@ =~= Seq::<usize>::empty());
        }
        while stack.len() > 0 && fuel > 0
            invariant
                result@.len() > 0 ==> result@[0] == idx,
                result@.len() == 0 ==> stack@ =~= seq![idx],
                fuel > 0 || result@.len() > 0,
                preorder_walk(self.kids(), stack@, result@, fuel as nat) == preorder_walk(
                    self.kids(),
                    seq![idx],
                    Seq::empty(),
                    walk_budget(self.size_spec()),
                ),
            decreases fuel,
        {
            let ghost stack0 = stack@;
            let ghost result0 = result@;
            let ghost fuel0 = fuel as nat;
            fuel = fuel - 1;
            let current = stack.pop().unwrap();
            proof {
                if result@.len() == 0 {
                    assert(current == idx);
                }
            }
            result.push(current);
            let ghost stack1 = stack@;
            match self.children.get(&current) {
                Some(child_list) => {
                    proof {
                        assert(self.kids().contains_key(current));
                        assert(self.kids()[current] == child_list@);
                        assert(kids_of(self.kids(), current) == child_list@);
                    }
                    let mut t = child_list.len();
                    proof {
                        assert(stack@ =~= stack1 + child_list@.subrange(
                            t as int,
                            child_list@.len() as int,
                        ).reverse());
                    }
                    while t > 0
                        invariant
                            t <= child_list@.len(),
                            result@.len() > 0 && result@[0] == idx,
                            stack@ =~= stack1 + child_list@.subrange(
                                t as int,
                                child_list@.len() as int,
                            ).reverse(),
                        decreases t,
                    {
                        t = t - 1;
                        stack.push(child_list[t]);
                        proof {
                            assert(stack@ =~= stack1 + child_list@.subrange(
                                t as int,
                                child_list@.len() as int,
                            ).reverse());
                        }
                    }
                    proof {
                        assert(child_list@.subrange(0, child_list@.len() as int) =~= child_list@);
                        assert(stack@ =~= stack1 + kids_of(self.kids(), current).reverse());
                    }
                },
                None => {
                    proof {
                        assert(!self.kids().contains_key(current));
                        assert(kids_of(self.kids(), current) =~= Seq::<usize>::empty());
                        assert(kids_of(self.kids(), current).reverse() =~= Seq::<usize>::empty());
                        assert(stack@ =~= stack1 + kids_of(self.kids(), current).reverse());
                    }
                },
            }
            proof {
                assert(stack1 =~= stack0.drop_last());
                assert(stack@ == stack0.drop_last() + kids_of(self.kids(), current).reverse());
                assert(preorder_walk(self.kids(), stack0, result0, fuel0) == preorder_walk(
                    self.kids(),
                    stack@,
                    result@,
                    fuel as nat,
                ));
            }
        }
        proof {
            assert(preorder_walk(self.kids(), stack@, result@, fuel as nat) == result@);
        }
        result
    }

    /// Children-first traversal from `idx`: the prefix walk with the start
    /// node withheld, then appended last.
    fn postorder(&self, idx: usize) -> (r: Vec<usize>)
        ensures
            r@.len() >= 1,
            r@.last() == idx,
            r@ == postorder_walk(
                self.kids(),
                seq![idx],
                Seq::empty(),
                walk_budget(self.size_spec()),
                idx,
            ).push(idx),
    {
        let mut stack: Vec<usize> = Vec::new();
        let mut result: Vec<usize> = Vec::new();
        stack.push(idx);
        let mut fuel = self.arena.len().saturating_add(1);
        proof {
            assert(fuel as nat == walk_budget(self.size_spec()));
            assert(stack@ =~= seq![idx]);
            assert(result@ =~= Seq::<usize>::empty());
        }
        while stack.len() > 0 && fuel > 0
            invariant
                postorder_walk(self.kids(), stack@, result@, fuel as nat, idx) == postorder_walk(
                    self.kids(),
                    seq![idx],
                    Seq::empty(),
                    walk_budget(self.size_spec()),
                    idx,
                ),
            decreases fuel,
        {
            let ghost stack0 = stack@;
            let ghost result0 = result@;
            let ghost fuel0 = fuel as nat;
            fuel = fuel - 1;
            let current = stack.pop().unwrap();
            if current != idx {
                result.push(current);
            }
            let ghost stack1 = stack@;
            match self.children.get(&current) {
                Some(child_list) => {
                    proof {
                        assert(self.kids().contains_key(current));
                        assert(self.kids()[current] == child_list@);
                        assert(kids_of(self.kids(), current) == child_list@);
                    }
                    let mut t = child_list.len();
                    proof {
                        assert(stack@ =~= stack1 + child_list@.subrange(
                            t as int,
                            child_list@.len() as int,
                        ).reverse());
                    }
                    while t > 0
                        invariant
                            t <= child_list@.len(),
                            stack@ =~= stack1 + child_list@.subrange(
                                t as int,
                                child_list@.len() as int,
                            ).reverse(),
                        decreases t,
                    {
                        t = t - 1;
                        stack.push(child_list[t]);
                        proof {
                            assert(stack@ =~= stack1 + child_list@.subrange(
                                t as int,
                                child_list@.len() as int,
                            ).reverse());
                        }
                    }
                    proof {
                        assert(child_list@.subrange(0, child_list@.len() as int) =~= child_list@);
                        assert(stack@ =~= stack1 + kids_of(self.kids(), current).reverse());
                    }
                },
                None => {
                    proof {
                        assert(!self.kids().contains_key(current));
                        assert(kids_of(self.kids(), current).reverse() =~= Seq::<usize>::empty());
                        assert(stack@ =~= stack1 + kids_of(self.kids(), current).reverse());
                    }
                },
            }
            proof {
                assert(stack1 =~= stack0.drop_last());
                assert(stack@ == stack0.drop_last() + kids_of(self.kids(), current).reverse());
                assert(postorder_walk(self.kids(), stack0, result0, fuel0, idx) == postorder_walk(
                    self.kids(),
                    stack@,
                    result@,
                    fuel as nat,
                    idx,
                ));
            }
        }
        proof {
            assert(postorder_walk(self.kids(), stack@, result@, fuel as nat, idx) == result@);
        }
        result.push(idx);
        result
    }

    /// Left-spine-first traversal from `idx`: first children before their
    /// parents, second children after; exactly the infix walk machine.
    #[verifier::loop_isolation(false)]
    fn inorder(&self, idx: usize) -> (r: Vec<usize>)
        ensures
            r@ == inorder_walk(
                self.kids(),
                Set::empty(),
                Seq::empty(),
                idx,
                Seq::empty(),
                long_walk_budget(self.size_spec()),
                walk_budget(self.size_spec()),
            ),
    {
        let mut stack: Vec<usize> = Vec::new();
        let mut visited: HashSet<usize> = HashSet::new();
        let mut result: Vec<usize> = Vec::new();
        let missing = usize::MAX;
        let mut current: usize = idx;
        let mut fuel = self.arena.len().saturating_add(1).saturating_add(self.arena.len());
        proof {
            assert(fuel as nat == long_walk_budget(self.size_spec()));
            assert(stack@ =~= Seq::<usize>::empty());
            assert(result@ =~= Seq::<usize>::empty());
            assert(visited@ =~= Set::<usize>::empty());
        }
        while (stack.len() > 0 || current != missing) && fuel > 0
            invariant
                missing == usize::MAX,
                inorder_walk(
                    self.kids(),
                    visited@,
                    stack@,
                    current,
                    result@,
                    fuel as nat,
                    walk_budget(self.size_spec()),
                ) == inorder_walk(
                    self.kids(),
                    Set::empty(),
                    Seq::empty(),
                    idx,
                    Seq::empty(),
                    long_walk_budget(self.size_spec()),
                    walk_budget(self.size_spec()),
                ),
            decreases fuel,
        {
            let ghost stack0 = stack@;
            let ghost vis0 = visited@;
            let ghost result0 = result@;
            let ghost fuel0 = fuel as nat;
            let ghost cur0 = current;
            fuel = fuel - 1;
            let mut inner_fuel = self.arena.len().saturating_add(1);
            proof {
                assert(inner_fuel as nat == walk_budget(self.size_spec()));
            }
            while current != missing && inner_fuel > 0
                invariant
                    visited@ == vis0,
                    spine_walk(self.kids(), vis0, stack@, current, inner_fuel as nat)
                        == spine_walk(
                        self.kids(),
                        vis0,
                        stack0,
                        cur0,
                        walk_budget(self.size_spec()),
                    ),
                decreases inner_fuel,
            {
                let ghost stp = stack@;
                let ghost curp = current;
                let ghost ifp = inner_fuel as nat;
                inner_fuel = inner_fuel - 1;
                if visited.contains(&current) {
                    proof {
                        assert(vis0.contains(curp));
                        assert(spine_walk(self.kids(), vis0, stack@, current, inner_fuel as nat)
                            == spine_walk(self.kids(), vis0, stp, curp, ifp));
                    }
                    break ;
                }
                stack.push(current);
                current = match self.children.get(&current) {
                    Some(child_list) => {
                        if child_list.len() > 0 {
                            child_list[0]
                        } else {
                            missing
                        }
                    },
                    None => missing,
                };
                proof {
                    assert(!vis0.contains(curp));
                    assert(curp != usize::MAX);
                    assert(stack@ =~= stp.push(curp));
                    let ks = kids_of(self.kids(), curp);
                    assert(current == (if ks.len() > 0 {
                        ks[0]
                    } else {
                        usize::MAX
                    }));
                    assert(spine_walk(self.kids(), vis0, stp, curp, ifp) == spine_walk(
                        self.kids(),
                        vis0,
                        stack@,
                        current,
                        inner_fuel as nat,
                    ));
                }
            }
            proof {
                // the exit state is a fixpoint of the descent
                assert(spine_walk(self.kids(), vis0, stack@, current, inner_fuel as nat) == (
                stack@,
                current,
                )) by {
                    if current != usize::MAX && inner_fuel > 0 {
                        assert(vis0.contains(current));
                    }
                }
            }
            let ghost st1 = stack@;
            let ghost cur1 = current;
            match stack.pop() {
                Some(top) => {
                    result.push(top);
                    visited.insert(top);
                    current = match self.children.get(&top) {
                        Some(child_list) => {
                            if child_list.len() > 1 {
                                child_list[1]
                            } else {
                                missing
                            }
                        },
                        None => missing,
                    };
                    proof {
                        assert(top == st1.last());
                        assert(stack@ =~= st1.drop_last());
                        assert(visited@ =~= vis0.insert(top));
                        let ks = kids_of(self.kids(), top);
                        assert(current == (if ks.len() > 1 {
                            ks[1]
                        } else {
                            usize::MAX
                        }));
                    }
                },
                None => {
                    current = missing;
                    proof {
                        assert(st1.len() == 0);
                    }
                },
            }
            proof {
                assert(inorder_walk(
                    self.kids(),
                    vis0,
                    stack0,
                    cur0,
                    result0,
                    fuel0,
                    walk_budget(self.size_spec()),
                ) == inorder_walk(
                    self.kids(),
                    visited@,
                    stack@,
                    current,
                    result@,
                    fuel as nat,
                    walk_budget(self.size_spec()),
                ));
            }
        }
        proof {
            assert(inorder_walk(
                self.kids(),
                visited@,
                stack@,
                current,
                result@,
                fuel as nat,
                walk_budget(self.size_spec()),
            ) == result@);
        }
        result
    }

    /// Level-order traversal from `idx`: exactly the level walk machine —
    /// oldest open node first, children appended in stored order.
    pub fn bfs(&self, idx: usize) -> (r: Option<Vec<usize>>)
        ensures
            r is Some,
            r.unwrap()@.len() >= 1,
            r.unwrap()@[0] == idx,
            r.unwrap()@ == level_walk(
                self.kids(),
                seq![idx],
                Seq::empty(),
                walk_budget(self.size_spec()),
            ),
    {
        let mut queue: VecDeque<usize> = VecDeque::new();
        let mut result: Vec<usize> = Vec::new();
        queue.push_back(idx);
        let mut fuel = self.arena.len().saturating_add(1);
        proof {
            assert(fuel as nat == walk_budget(self.size_spec()));
            assert(queue@ =~= seq![idx]);
            assert(result@ =~= Seq::<usize>::empty());
        }
        while queue.len() > 0 && fuel > 0
            invariant
                result@.len() > 0 ==> result@[0] == idx,
                result@.len() == 0 ==> queue@ =~= seq![idx],
                fuel > 0 || result@.len() > 0,
                level_walk(self.kids(), queue@, result@, fuel as nat) == level_walk(
                    self.kids(),
                    seq![idx],
                    Seq::empty(),
                    walk_budget(self.size_spec()),
                ),
            decreases fuel,
        {
            let ghost queue0 = queue@;
            let ghost result0 = result@;
            let ghost fuel0 = fuel as nat;
            fuel = fuel - 1;
            let current = queue.pop_front().unwrap();
            result.push(current);
            let ghost queue1 = queue@;
            match self.children.get(&current) {
                Some(child_list) => {
                    proof {
                        assert(self.kids().contains_key(current));
                        assert(self.kids()[current] == child_list@);
                        assert(kids_of(self.kids(), current) == child_list@);
                    }
                    let mut t: usize = 0;
                    proof {
                        assert(queue@ =~= queue1 + child_list@.take(t as int));
                    }
                    while t < child_list.len()
                        invariant
                            t <= child_list@.len(),
                            result@.len() > 0 && result@[0] == idx,
                            queue@ =~= queue1 + child_list@.take(t as int),
                        decreases child_list@.len() - t,
                    {
                        queue.push_back(child_list[t]);
                        t = t + 1;
                        proof {
                            assert(queue@ =~= queue1 + child_list@.take(t as int));
                        }
                    }
                    proof {
                        assert(child_list@.take(child_list@.len() as int) =~= child_list@);
                        assert(queue@ =~= queue1 + kids_of(self.kids(), current));
                    }
                },
                None => {
                    proof {
                        assert(!self.kids().contains_key(current));
                        assert(queue@ =~= queue1 + kids_of(self.kids(), current));
                    }
                },
            }
            proof {
                assert(queue1 =~= queue0.drop_first());
                assert(current == queue0.first());
                assert(queue@ == queue0.drop_first() + kids_of(self.kids(), current));
                assert(level_walk(self.kids(), queue0, result0, fuel0) == level_walk(
                    self.kids(),
                    queue@,
                    result@,
                    fuel as nat,
                ));
            }
        }
        proof {
            assert(level_walk(self.kids(), queue@, result@, fuel as nat) == result@);
        }
        Some(result)
    }

    /// The root node, when the tree is not empty.
    pub fn root(&self) -> (r: Option<&Node<T>>)
        ensures
            r is Some <==> self.size_spec() > 0,
    {
        if self.arena.len() > 0 {
            Some(&self.arena[0])
        } else {
            None
        }
    }

    /// The recorded parent link of the node at `idx`.
    pub fn parent(&self, idx: usize) -> (r: Option<usize>)
        requires
            (idx as int) < self.size_spec(),
    {
        self.arena[idx].parent
    }

    /// The child list recorded under `idx`.
    pub fn children(&self, idx: usize) -> (r: &Vec<usize>)
        requires
            self.kids().contains_key(idx),
        ensures
            r@ == self.kids()[idx],
    {
        self.children.get(&idx).unwrap()
    }

    /// Whether a child list stands recorded under `idx`; leaves have none
    /// recorded.
    pub fn is_leaf(&self, idx: usize) -> (r: bool)
        ensures
            r == self.kids().contains_key(idx),
    {
        self.children.get(&idx).is_some()
    }

    /// The tree holds no nodes.
    pub fn is_empty(&self) -> (r: bool)
        ensures
            r == (self.size_spec() == 0),
    {
        self.arena.len() == 0
    }

    /// How many nodes the tree holds.
    pub fn size(&self) -> (r: usize)
        ensures
            r == self.size_spec(),
    {
        self.arena.len()
    }

    /// Drops every node and every child list.
    pub fn clear(&mut self)
        ensures
            final(self).size_spec() == 0,
            final(self).kids() == Map::<usize, Seq<usize>>::empty(),
    {
        self.arena = Vec::new();
        self.children = HashMap::new();
        proof {
            assert(self.kids() =~= Map::<usize, Seq<usize>>::empty());
        }
    }
}

} // verus!
