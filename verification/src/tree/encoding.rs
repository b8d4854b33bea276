//! Model of the pre-order (prefix) arena encoding.
//!
//! An arena is a flat sequence of labels; a catalog maps each label to an
//! arity. A sequence of arities encodes one tree exactly when the walk that
//! starts with one pending slot and, at every position, consumes a slot and
//! opens `arity` new ones, runs out of slots precisely at the end. The spec
//! functions here define that walk, the boundary of the subtree rooted at an
//! index, and the parent-to-children index derived from an arena; the lemmas
//! give the facts the verified operators are proved against.
use vstd::prelude::*;

verus! {

/// View of an arena as the sequence of its labels' character sequences.
pub open spec fn labels_of(arena: Seq<String>) -> Seq<Seq<char>> {
    arena.map_values(|s: String| s@)
}

/// Index of the first catalog entry named `label`, or `-1` when none is.
pub open spec fn find_op(ops: Seq<Seq<char>>, label: Seq<char>) -> int
    decreases ops.len(),
{
    if ops.len() == 0 {
        -1
    } else if ops[0] == label {
        0
    } else {
        let r = find_op(ops.drop_first(), label);
        if r < 0 {
            -1
        } else {
            r + 1
        }
    }
}

pub proof fn lemma_find_op(ops: Seq<Seq<char>>, label: Seq<char>)
    ensures
        find_op(ops, label) < 0 ==> forall|i: int| 0 <= i < ops.len() ==> ops[i] != label,
        find_op(ops, label) >= 0 ==> 0 <= find_op(ops, label) < ops.len()
            && ops[find_op(ops, label)] == label
            && (forall|i: int| 0 <= i < find_op(ops, label) ==> ops[i] != label),
    decreases ops.len(),
{
    if ops.len() > 0 && ops[0] != label {
        let rest = ops.drop_first();
        lemma_find_op(rest, label);
        let r = find_op(rest, label);
        if r < 0 {
            assert forall|i: int| 0 <= i < ops.len() implies ops[i] != label by {
                if i > 0 {
                    assert(rest[i - 1] == ops[i]);
                }
            }
        } else {
            assert(ops[r + 1] == rest[r]);
            assert forall|i: int| 0 <= i < r + 1 implies ops[i] != label by {
                if i > 0 {
                    assert(rest[i - 1] == ops[i]);
                }
            }
        }
    }
}

/// Arity that a catalog with names `ops` and arities `ars` gives a label;
/// a label the catalog does not hold counts as a leaf.
pub open spec fn arity_of(ops: Seq<Seq<char>>, ars: Seq<usize>, label: Seq<char>) -> nat {
    let i = find_op(ops, label);
    if 0 <= i < ars.len() {
        ars[i] as nat
    } else {
        0
    }
}

/// The arity sequence of an arena under a catalog.
pub open spec fn arity_seq(ops: Seq<Seq<char>>, ars: Seq<usize>, labels: Seq<Seq<char>>) -> Seq<
    nat,
> {
    labels.map_values(|l: Seq<char>| arity_of(ops, ars, l))
}

/// The slot-consuming walk: from `pos` with `pending` open slots, each
/// position fills one slot and opens `ar[pos]` new ones. Returns the first
/// position where no slot stays open, or `ar.len() + 1` when the arena ends
/// while slots are still open.
pub open spec fn walk(ar: Seq<nat>, pos: int, pending: nat) -> int
    decreases ar.len() - pos,
{
    if pending == 0 {
        pos
    } else if !(0 <= pos < ar.len()) {
        ar.len() as int + 1
    } else {
        walk(ar, pos + 1, (pending - 1 + ar[pos]) as nat)
    }
}

/// An arity sequence encodes exactly one whole tree.
pub open spec fn valid(ar: Seq<nat>) -> bool {
    ar.len() > 0 && walk(ar, 0, 1) == ar.len()
}

/// Last index of the subtree rooted at `i`.
pub open spec fn subtree_end(ar: Seq<nat>, i: int) -> int {
    walk(ar, i, 1) - 1
}

/// The range starting at `i` opens with a complete subtree.
pub open spec fn subtree_ok(ar: Seq<nat>, i: int) -> bool {
    0 <= i < ar.len() && walk(ar, i, 1) <= ar.len()
}

/// Sum of the first `j` arities (positions outside the arena count zero).
pub open spec fn psum(ar: Seq<nat>, j: int) -> int
    decreases j,
{
    if j <= 0 {
        0
    } else {
        psum(ar, j - 1) + if j - 1 < ar.len() {
            ar[j - 1] as int
        } else {
            0
        }
    }
}

/// Open slots at position `k` of a walk that started at `pos` with `p` slots.
pub open spec fn pend(ar: Seq<nat>, pos: int, p: nat, k: int) -> int {
    p + psum(ar, k) - psum(ar, pos) - (k - pos)
}

/// A successful walk stops at the first position where the slot count hits
/// zero; a failed walk means the count stays positive through the end.
pub proof fn lemma_walk_char(ar: Seq<nat>, pos: int, p: nat)
    requires
        0 <= pos <= ar.len(),
    ensures
        walk(ar, pos, p) == ar.len() + 1 ==> forall|k: int|
            pos <= k <= ar.len() ==> pend(ar, pos, p, k) > 0,
        walk(ar, pos, p) <= ar.len() ==> {
            let j = walk(ar, pos, p);
            &&& pos <= j <= ar.len()
            &&& pend(ar, pos, p, j) == 0
            &&& forall|k: int| pos <= k < j ==> pend(ar, pos, p, k) > 0
        },
    decreases ar.len() - pos,
{
    if p == 0 {
    } else if pos == ar.len() {
        assert(pend(ar, pos, p, pos) == p);
    } else {
        let a = ar[pos];
        lemma_walk_char(ar, pos + 1, (p - 1 + a) as nat);
        assert(psum(ar, pos + 1) == psum(ar, pos) + a);
        assert forall|k: int| pos + 1 <= k <= ar.len() implies pend(ar, pos + 1, (p - 1 + a) as nat, k)
            == pend(ar, pos, p, k) by {
            assert(psum(ar, pos + 1) == psum(ar, pos) + a);
        }
        assert(pend(ar, pos, p, pos) == p);
    }
}

/// A position where the slot count first hits zero is where the walk stops.
pub proof fn lemma_walk_first_zero(ar: Seq<nat>, pos: int, p: nat, j: int)
    requires
        0 <= pos <= j <= ar.len(),
        pend(ar, pos, p, j) == 0,
        forall|k: int| pos <= k < j ==> pend(ar, pos, p, k) > 0,
    ensures
        walk(ar, pos, p) == j,
{
    lemma_walk_char(ar, pos, p);
    lemma_walk_bounds(ar, pos, p);
    let j0 = walk(ar, pos, p);
    if j0 == ar.len() + 1 {
        assert(pend(ar, pos, p, j) > 0);
    } else if j0 < j {
        assert(pend(ar, pos, p, j0) > 0);
    } else if j0 > j {
        assert(pend(ar, pos, p, j) > 0);
    }
}

/// Walks compose: consuming `p + q` slots is consuming `p`, then `q`.
pub proof fn lemma_walk_compose(ar: Seq<nat>, pos: int, p: nat, q: nat)
    requires
        0 <= pos,
    ensures
        walk(ar, pos, (p + q) as nat) == walk(ar, walk(ar, pos, p), q),
    decreases ar.len() - pos,
{
    if p == 0 {
    } else if pos >= ar.len() {
        assert(walk(ar, pos, p) == ar.len() + 1);
        assert(walk(ar, pos, (p + q) as nat) == ar.len() + 1);
        assert(walk(ar, ar.len() as int + 1, q) == ar.len() + 1);
    } else {
        let a = ar[pos];
        lemma_walk_compose(ar, pos + 1, (p - 1 + a) as nat, q);
        assert((p - 1 + a) + q == (p + q - 1 + a));
    }
}

/// Bounds of the walk's result.
pub proof fn lemma_walk_bounds(ar: Seq<nat>, pos: int, p: nat)
    requires
        0 <= pos <= ar.len(),
    ensures
        walk(ar, pos, p) <= ar.len() + 1,
        p == 0 ==> walk(ar, pos, p) == pos,
        p > 0 ==> walk(ar, pos, p) >= pos + 1,
    decreases ar.len() - pos,
{
    if p > 0 && pos < ar.len() {
        lemma_walk_bounds(ar, pos + 1, (p - 1 + ar[pos]) as nat);
    }
}

/// When the slot count is positive at `pos` and drops to or below zero by
/// `hi`, the walk from `pos` succeeds no later than `hi`.
pub proof fn lemma_walk_succeeds(ar: Seq<nat>, pos: int, p: nat, hi: int)
    requires
        0 <= pos <= hi <= ar.len(),
        p > 0,
        pend(ar, pos, p, hi) <= 0,
    ensures
        pos < walk(ar, pos, p) <= hi,
    decreases hi - pos,
{
    assert(pend(ar, pos, p, pos) == p);
    assert(pos < hi);
    let a = ar[pos];
    assert(psum(ar, pos + 1) == psum(ar, pos) + a);
    let p1 = (p - 1 + a) as nat;
    assert forall|k: int| pend(ar, pos + 1, p1, k) == pend(ar, pos, p, k) by {
        assert(psum(ar, pos + 1) == psum(ar, pos) + a);
    }
    if p1 == 0 {
        assert(walk(ar, pos + 1, p1) == pos + 1);
        assert(walk(ar, pos, p) == pos + 1);
    } else {
        lemma_walk_succeeds(ar, pos + 1, p1, hi);
    }
}

/// Under a valid encoding, every index roots a complete subtree that ends
/// inside the arena.
pub proof fn lemma_valid_subtree_ok(ar: Seq<nat>, i: int)
    requires
        valid(ar),
        0 <= i < ar.len(),
    ensures
        subtree_ok(ar, i),
        i <= subtree_end(ar, i) < ar.len(),
{
    lemma_walk_char(ar, 0, 1);
    let len = ar.len() as int;
    assert(pend(ar, 0, 1, len) == 0);
    assert(pend(ar, 0, 1, i) > 0);
    assert(pend(ar, i, 1, len) == 1 + psum(ar, len) - psum(ar, i) - (len - i));
    assert(pend(ar, i, 1, len) == pend(ar, 0, 1, len) - pend(ar, 0, 1, i) + 1);
    lemma_walk_succeeds(ar, i, 1, len);
    lemma_walk_bounds(ar, i, 1);
}

/// Prefix sums agree where the underlying elements agree, up to an offset.
pub proof fn lemma_psum_offset(u: Seq<nat>, w: Seq<nat>, off: int, j: int)
    requires
        0 <= off,
        0 <= j,
        off + j <= u.len(),
        j <= w.len(),
        forall|t: int| 0 <= t < j ==> w[t] == u[off + t],
    ensures
        psum(w, j) == psum(u, off + j) - psum(u, off),
    decreases j,
{
    if j > 0 {
        lemma_psum_offset(u, w, off, j - 1);
    }
}

/// A subtree of a valid arena can be replaced by any other complete
/// encoding and the whole stays a valid encoding.
pub proof fn lemma_splice(a: Seq<nat>, s: Seq<nat>, x: int)
    requires
        valid(a),
        0 <= x < a.len(),
        valid(s),
    ensures
        valid(a.subrange(0, x) + s + a.subrange(walk(a, x, 1), a.len() as int)),
        (a.subrange(0, x) + s + a.subrange(walk(a, x, 1), a.len() as int)).len()
            == a.len() + s.len() - (walk(a, x, 1) - x),
{
    let len = a.len() as int;
    let m = s.len() as int;
    lemma_valid_subtree_ok(a, x);
    let e1 = walk(a, x, 1);
    let b = a.subrange(0, x) + s + a.subrange(e1, len);
    let lb = b.len() as int;
    assert(lb == x + m + (len - e1));

    lemma_walk_char(a, 0, 1);
    lemma_walk_char(a, x, 1);
    lemma_walk_char(s, 0, 1);

    // prefix sums of b in its three zones
    assert forall|j: int| 0 <= j <= lb implies psum(b, j) == if j <= x {
        psum(a, j)
    } else if j <= x + m {
        psum(a, x) + psum(s, j - x)
    } else {
        psum(a, x) + psum(s, m) + (psum(a, e1 + (j - x - m)) - psum(a, e1))
    } by {
        if j <= x {
            assert forall|t: int| 0 <= t < j implies b[t] == a[t] by {}
            lemma_psum_offset(a, b.subrange(0, j), 0, j);
            lemma_psum_offset(b, b.subrange(0, j), 0, j);
        } else if j <= x + m {
            // psum(b, j) == psum(b, x) + (sum of s[0..j-x])
            let w = b.subrange(x, j);
            assert forall|t: int| 0 <= t < j - x implies w[t] == s[t] by {}
            lemma_psum_offset(b, w, x, j - x);
            lemma_psum_offset(s, w, 0, j - x);
            assert(psum(b, x) == psum(a, x)) by {
                let w0 = b.subrange(0, x);
                lemma_psum_offset(b, w0, 0, x);
                lemma_psum_offset(a, w0, 0, x);
            }
        } else {
            let d = j - x - m;
            let w = b.subrange(x + m, j);
            assert forall|t: int| 0 <= t < d implies w[t] == a[e1 + t] by {}
            lemma_psum_offset(b, w, x + m, d);
            lemma_psum_offset(a, w, e1, d);
            assert(psum(b, x + m) == psum(a, x) + psum(s, m)) by {
                let w1 = b.subrange(0, x);
                lemma_psum_offset(b, w1, 0, x);
                lemma_psum_offset(a, w1, 0, x);
                let w2 = b.subrange(x, x + m);
                assert forall|t: int| 0 <= t < m implies w2[t] == s[t] by {}
                lemma_psum_offset(b, w2, x, m);
                lemma_psum_offset(s, w2, 0, m);
            }
        }
    }

    // the subtree equation: slots balance over [x, e1)
    assert(pend(a, x, 1, e1) == 0);
    // the whole-arena equations
    assert(pend(a, 0, 1, len) == 0);
    assert(pend(s, 0, 1, m) == 0);

    // pending of b stays positive before lb and reaches zero at lb
    assert forall|k: int| 0 <= k < lb implies pend(b, 0, 1, k) > 0 by {
        if k <= x {
            assert(pend(b, 0, 1, k) == pend(a, 0, 1, k));
        } else if k < x + m {
            assert(pend(b, 0, 1, k) == pend(a, 0, 1, x) - 1 + pend(s, 0, 1, k - x));
            assert(pend(s, 0, 1, k - x) > 0);
            assert(pend(a, 0, 1, x) > 0);
        } else {
            let d = k - x - m;
            assert(psum(s, m) == m - 1);
            assert(psum(a, e1) - psum(a, x) == e1 - x - 1);
            assert(pend(b, 0, 1, k) == pend(a, 0, 1, e1 + d));
            assert(e1 + d < len);
        }
    }
    assert(pend(b, 0, 1, lb) == pend(a, 0, 1, len)) by {
        assert(psum(b, lb) == psum(a, x) + psum(s, m) + (psum(a, len) - psum(a, e1)));
        assert(psum(s, m) == m - 1);
        assert(psum(a, e1) - psum(a, x) == e1 - x - 1);
    }
    lemma_walk_first_zero(b, 0, 1, lb);
}

/// Start of the `k`-th child (counting from zero) of the node at `i`: the
/// first child starts right after its parent, and each next one right after
/// the previous child's subtree.
pub open spec fn nth_child(ar: Seq<nat>, i: int, k: int) -> int
    decreases k,
{
    if k <= 0 {
        i + 1
    } else {
        walk(ar, nth_child(ar, i, k - 1), 1)
    }
}

/// The ordered child list of the node at `p`.
pub open spec fn child_seq(ar: Seq<nat>, p: int) -> Seq<usize> {
    Seq::new(ar[p], |k: int| nth_child(ar, p, k) as usize)
}

/// The parent-to-children index an arena derives: a key for every node with
/// at least one child, no entry for a leaf.
pub open spec fn children_of(ar: Seq<nat>) -> Map<usize, Seq<usize>> {
    Map::new(
        |p: usize| (p as int) < ar.len() && ar[p as int] > 0,
        |p: usize| child_seq(ar, p as int),
    )
}

/// Appends a child to a parent's list, starting the list when absent.
pub open spec fn map_push(acc: Map<usize, Seq<usize>>, p: usize, c: usize) -> Map<
    usize,
    Seq<usize>,
> {
    let cur = if acc.contains_key(p) {
        acc[p]
    } else {
        Seq::empty()
    };
    acc.insert(p, cur.push(c))
}

/// The parser machine behind `construct_children`: a stack of open slots,
/// each naming the parent it belongs to; every position fills the top slot,
/// records the edge, and opens one slot per argument of its own label.
pub open spec fn cc_step(
    ar: Seq<nat>,
    stack: Seq<usize>,
    current: int,
    acc: Map<usize, Seq<usize>>,
) -> Map<usize, Seq<usize>>
    decreases ar.len() - current,
{
    if stack.len() == 0 {
        acc
    } else if !(0 <= current < ar.len()) {
        acc
    } else {
        let parent = stack.last();
        let stack1 = stack.drop_last();
        let acc1 = if parent as int != current {
            map_push(acc, parent, current as usize)
        } else {
            acc
        };
        let stack2 = stack1 + Seq::new(ar[current], |k: int| current as usize);
        cc_step(ar, stack2, current + 1, acc1)
    }
}

/// What the machine computes on a whole arena.
pub open spec fn children_model(ar: Seq<nat>) -> Map<usize, Seq<usize>> {
    cc_step(ar, seq![0usize], 0, Map::empty())
}

/// The starts of `k` consecutive subtrees, the first at `i`.
pub open spec fn roots_seq(ar: Seq<nat>, i: int, k: nat) -> Seq<usize> {
    Seq::new(k, |t: int| walk(ar, i, t as nat) as usize)
}

/// The accumulator after the machine consumes `k` consecutive subtrees from
/// `i`, all slots owned by `p`: the `k` roots land on `p`'s list, and every
/// inner node of the consumed range gets its full child list.
pub open spec fn with_subforest(
    ar: Seq<nat>,
    i: int,
    k: nat,
    p: usize,
    acc: Map<usize, Seq<usize>>,
) -> Map<usize, Seq<usize>> {
    Map::new(
        |q: usize|
            acc.contains_key(q) || (k > 0 && q == p) || (i <= (q as int) && (q as int) < walk(
                ar,
                i,
                k,
            ) && ar[q as int] > 0),
        |q: usize|
            if q == p && k > 0 {
                (if acc.contains_key(p) {
                    acc[p]
                } else {
                    Seq::empty()
                }) + roots_seq(ar, i, k)
            } else if i <= (q as int) && (q as int) < walk(ar, i, k) && ar[q as int] > 0 {
                child_seq(ar, q as int)
            } else {
                acc[q]
            },
    )
}

/// The `k`-th child of `p` is the start of the `k`-th subtree after `p`.
pub proof fn lemma_nth_child_walk(ar: Seq<nat>, p: int, k: int)
    requires
        p >= 0,
        k >= 0,
    ensures
        nth_child(ar, p, k) == walk(ar, p + 1, k as nat),
    decreases k,
{
    if k > 0 {
        lemma_nth_child_walk(ar, p, k - 1);
        lemma_walk_compose(ar, p + 1, (k - 1) as nat, 1);
        assert(walk(ar, p + 1, ((k - 1) + 1) as nat) == walk(ar, walk(ar, p + 1, (k - 1) as nat), 1));
    }
}

/// Consuming `k` subtrees whose slots all name the parent `p` takes the
/// machine from position `i` to the end of the `k`-th subtree and records
/// exactly the edges of the consumed range.
pub proof fn lemma_consume(
    ar: Seq<nat>,
    st0: Seq<usize>,
    p: usize,
    k: nat,
    i: int,
    acc: Map<usize, Seq<usize>>,
)
    requires
        ar.len() <= usize::MAX,
        0 <= i,
        walk(ar, i, k) <= ar.len(),
        (p as int) < i,
        forall|q: usize| acc.contains_key(q) ==> (q as int) < i,
    ensures
        cc_step(ar, st0 + Seq::new(k, |t: int| p), i, acc) == cc_step(
            ar,
            st0,
            walk(ar, i, k),
            with_subforest(ar, i, k, p, acc),
        ),
    decreases walk(ar, i, k) - i,
{
    let len = ar.len() as int;
    if k == 0 {
        assert(st0 + Seq::new(0, |t: int| p) =~= st0);
        assert(with_subforest(ar, i, 0, p, acc) =~~= acc);
    } else {
        lemma_walk_bounds(ar, i, k);
        assert(i < len) by {
            if i >= len {
                assert(walk(ar, i, k) == len + 1);
            }
        }
        let a = ar[i];
        let e = walk(ar, i, 1);
        let jj = walk(ar, i, k);
        // one subtree, then the remaining k - 1
        lemma_walk_compose(ar, i, 1, (k - 1) as nat);
        assert(jj == walk(ar, e, (k - 1) as nat));
        assert(e <= len) by {
            if e == len + 1 {
                lemma_walk_bounds(ar, len + 1, (k - 1) as nat);
                if k == 1 {
                } else {
                    assert(walk(ar, len + 1, (k - 1) as nat) == len + 1);
                }
            }
        }
        lemma_walk_bounds(ar, i, 1);
        lemma_walk_bounds(ar, e, (k - 1) as nat);

        // unfold the machine one step
        let stack = st0 + Seq::new(k, |t: int| p);
        assert(stack.len() > 0);
        assert(stack.last() == p);
        assert(stack.drop_last() =~= st0 + Seq::new((k - 1) as nat, |t: int| p));
        let acc1 = map_push(acc, p, i as usize);
        assert(cc_step(ar, stack, i, acc) == cc_step(
            ar,
            stack.drop_last() + Seq::new(a, |t: int| i as usize),
            i + 1,
            acc1,
        ));
        assert(stack.drop_last() + Seq::new(a, |t: int| i as usize) =~= (st0 + Seq::new(
            (k - 1) as nat,
            |t: int| p,
        )) + Seq::new(a, |t: int| i as usize));

        // walk(ar, i + 1, a) is the end of the first subtree
        assert(walk(ar, i + 1, a) == e);

        // consume the a children subtrees of node i
        lemma_consume(ar, st0 + Seq::new((k - 1) as nat, |t: int| p), i as usize, a, i + 1, acc1);
        let w1 = with_subforest(ar, i + 1, a, i as usize, acc1);
        assert(cc_step(ar, stack, i, acc) == cc_step(
            ar,
            st0 + Seq::new((k - 1) as nat, |t: int| p),
            e,
            w1,
        ));

        // consume the remaining k - 1 sibling subtrees
        assert(forall|q: usize| w1.contains_key(q) ==> (q as int) < e);
        lemma_consume(ar, st0, p, (k - 1) as nat, e, w1);
        let w2 = with_subforest(ar, e, (k - 1) as nat, p, w1);
        assert(cc_step(ar, stack, i, acc) == cc_step(ar, st0, jj, w2));

        // the two-stage accumulator equals the one-stage one
        let tgt = with_subforest(ar, i, k, p, acc);
        let accp = if acc.contains_key(p) {
            acc[p]
        } else {
            Seq::empty()
        };

        // the k roots split into the first root and the k - 1 that follow it
        assert(roots_seq(ar, i, k) =~= seq![i as usize] + roots_seq(ar, e, (k - 1) as nat)) by {
            assert forall|t: int| 0 <= t < k implies roots_seq(ar, i, k)[t] == (seq![i as usize]
                + roots_seq(ar, e, (k - 1) as nat))[t] by {
                if t > 0 {
                    lemma_walk_compose(ar, i, 1, (t - 1) as nat);
                    assert(walk(ar, i, (1 + (t - 1)) as nat) == walk(ar, e, (t - 1) as nat));
                }
            }
        }

        // the child list of node i is the roots of its argument subtrees
        assert(child_seq(ar, i) =~= roots_seq(ar, i + 1, a)) by {
            assert forall|t: int| 0 <= t < a implies child_seq(ar, i)[t] == roots_seq(
                ar,
                i + 1,
                a,
            )[t] by {
                lemma_nth_child_walk(ar, i, t);
            }
        }

        assert forall|q: usize| w2.contains_key(q) == tgt.contains_key(q) by {
            if q == p {
                assert(acc1.contains_key(q));
                assert(w1.contains_key(q));
                assert(w2.contains_key(q));
                assert(tgt.contains_key(q));
            } else if q as int == i {
                if a > 0 {
                    assert(w1.contains_key(q));
                    assert(w2.contains_key(q));
                    assert(tgt.contains_key(q));
                } else {
                    assert(e == i + 1);
                    assert(!acc1.contains_key(q));
                    assert(!w1.contains_key(q));
                    assert(!w2.contains_key(q));
                    assert(!tgt.contains_key(q));
                }
            } else if i < (q as int) && (q as int) < e && ar[q as int] > 0 {
                assert(w1.contains_key(q));
                assert(w2.contains_key(q));
                assert(tgt.contains_key(q));
            } else if e <= (q as int) && (q as int) < jj && ar[q as int] > 0 {
                assert(w2.contains_key(q));
                assert(tgt.contains_key(q));
            } else if acc.contains_key(q) {
                assert(acc1.contains_key(q));
                assert(w1.contains_key(q));
                assert(w2.contains_key(q));
                assert(tgt.contains_key(q));
            } else {
                assert(!acc1.contains_key(q));
                assert(!w1.contains_key(q));
                assert(!w2.contains_key(q));
                assert(!tgt.contains_key(q));
            }
        }

        assert forall|q: usize| w2.contains_key(q) implies w2[q] =~= tgt[q] by {
            assert(tgt.contains_key(q));
            if q == p {
                assert(acc1[p] == accp.push(i as usize));
                assert(w1[p] == accp.push(i as usize));
                if k == 1 {
                    assert(w2[p] == w1[p]);
                } else {
                    assert(w2[p] == accp.push(i as usize) + roots_seq(ar, e, (k - 1) as nat));
                }
                assert(tgt[p] == accp + roots_seq(ar, i, k));
                assert(accp + (seq![i as usize] + roots_seq(ar, e, (k - 1) as nat)) =~= accp.push(
                    i as usize,
                ) + roots_seq(ar, e, (k - 1) as nat));
            } else if q as int == i {
                assert(a > 0);
                assert(!acc1.contains_key(q));
                assert(w1[q] == Seq::<usize>::empty() + roots_seq(ar, i + 1, a));
                assert(w2[q] == w1[q]);
                assert(tgt[q] == child_seq(ar, i));
                assert(Seq::<usize>::empty() + roots_seq(ar, i + 1, a) =~= roots_seq(ar, i + 1, a));
            } else if i < (q as int) && (q as int) < e && ar[q as int] > 0 {
                assert(w1[q] == child_seq(ar, q as int));
                assert(w2[q] == w1[q]);
            } else if e <= (q as int) && (q as int) < jj && ar[q as int] > 0 {
                assert(w2[q] == child_seq(ar, q as int));
            } else {
                assert(acc.contains_key(q));
                assert((q as int) < i && q != p);
                assert(q != i as usize);
                assert(acc1.contains_key(q));
                assert(acc1[q] == acc[q]);
                assert(w1.contains_key(q));
                assert(w1[q] == acc1[q]);
                assert(w2[q] == w1[q]);
                assert(tgt[q] == acc[q]);
            }
        }
        assert(w2 =~~= tgt);
    }
}

/// On a valid arena the parser machine computes exactly the derived
/// parent-to-children index.
pub proof fn lemma_children_model(ar: Seq<nat>)
    requires
        valid(ar),
        ar.len() <= usize::MAX,
    ensures
        children_model(ar) == children_of(ar),
{
    let len = ar.len() as int;
    let a0 = ar[0];
    let st = seq![0usize];
    assert(st.len() == 1);
    assert(st.last() == 0usize);
    assert(st.drop_last() =~= Seq::<usize>::empty());
    let st2 = Seq::new(a0, |t: int| 0usize);
    assert(st.drop_last() + Seq::new(a0, |t: int| 0usize) =~= st2);
    assert(children_model(ar) == cc_step(ar, st2, 1, Map::<usize, Seq<usize>>::empty()));
    assert(walk(ar, 0, 1) == walk(ar, 1, a0));
    assert(Seq::<usize>::empty() + Seq::new(a0, |t: int| 0usize) =~= st2);
    lemma_consume(ar, Seq::empty(), 0usize, a0, 1, Map::empty());
    let w = with_subforest(ar, 1, a0, 0usize, Map::empty());
    assert(children_model(ar) == cc_step(ar, Seq::empty(), len, w));
    assert(children_model(ar) == w);

    if a0 > 0 {
        assert(child_seq(ar, 0) =~= Seq::<usize>::empty() + roots_seq(ar, 1, a0)) by {
            assert forall|t: int| 0 <= t < a0 implies child_seq(ar, 0)[t] == (Seq::<
                usize,
            >::empty() + roots_seq(ar, 1, a0))[t] by {
                lemma_nth_child_walk(ar, 0, t);
            }
        }
    }
    assert forall|q: usize| w.contains_key(q) == children_of(ar).contains_key(q) by {}
    assert forall|q: usize| w.contains_key(q) implies w[q] =~= children_of(ar)[q] by {
        if q == 0usize {
            assert(a0 > 0);
        }
    }
    assert(w =~~= children_of(ar));
}

/// Each child of a node starts after the node and its subtree stays inside
/// the node's own range.
pub proof fn lemma_child_in_parent(ar: Seq<nat>, pidx: int, t: int)
    requires
        subtree_ok(ar, pidx),
        0 <= t < ar[pidx],
    ensures
        pidx < nth_child(ar, pidx, t),
        nth_child(ar, pidx, t) < walk(ar, pidx, 1),
        subtree_ok(ar, nth_child(ar, pidx, t)),
        walk(ar, nth_child(ar, pidx, t), 1) <= walk(ar, pidx, 1),
{
    let len = ar.len() as int;
    let a = ar[pidx];
    let c = nth_child(ar, pidx, t);
    lemma_nth_child_walk(ar, pidx, t);
    assert(walk(ar, pidx, 1) == walk(ar, pidx + 1, a));
    lemma_walk_compose(ar, pidx + 1, t as nat, (a - t) as nat);
    assert(walk(ar, pidx + 1, a) == walk(ar, c, (a - t) as nat));
    assert(c <= len) by {
        if c > len {
            lemma_walk_bounds(ar, pidx + 1, t as nat);
        }
    }
    lemma_walk_bounds(ar, pidx + 1, t as nat);
    lemma_walk_bounds(ar, c, (a - t) as nat);
    // the remaining a - t sibling subtrees parse, so the one at c does
    lemma_walk_compose(ar, c, 1, (a - t - 1) as nat);
    assert(walk(ar, c, (a - t) as nat) == walk(ar, walk(ar, c, 1), (a - t - 1) as nat));
    assert(walk(ar, c, 1) <= len) by {
        if walk(ar, c, 1) == len + 1 {
            if a - t - 1 == 0 {
            } else {
                assert(walk(ar, len + 1, (a - t - 1) as nat) == len + 1);
            }
        } else {
            lemma_walk_bounds(ar, c, 1);
        }
    }
    lemma_walk_bounds(ar, c, 1);
    lemma_walk_bounds(ar, walk(ar, c, 1), (a - t - 1) as nat);
}

/// The `u`-th child range of the node at `pidx` holds index `j`.
pub open spec fn covers(ar: Seq<nat>, pidx: int, u: int, j: int) -> bool {
    0 <= u < ar[pidx] && nth_child(ar, pidx, u) <= j < walk(ar, nth_child(ar, pidx, u), 1)
}

/// Every index strictly inside a subtree lies in the range of one of the
/// root's children.
pub proof fn lemma_child_cover(ar: Seq<nat>, pidx: int, j: int, t: int)
    requires
        subtree_ok(ar, pidx),
        pidx < j < walk(ar, pidx, 1),
        0 <= t < ar[pidx],
        nth_child(ar, pidx, t) <= j,
    ensures
        exists|u: int| covers(ar, pidx, u, j),
    decreases ar[pidx] - t,
{
    let a = ar[pidx];
    let c = nth_child(ar, pidx, t);
    lemma_child_in_parent(ar, pidx, t);
    if j < walk(ar, c, 1) {
        assert(covers(ar, pidx, t, j));
    } else {
        assert(nth_child(ar, pidx, t + 1) == walk(ar, c, 1));
        if t + 1 == a {
            lemma_nth_child_walk(ar, pidx, a as int);
            assert(nth_child(ar, pidx, a as int) == walk(ar, pidx + 1, a));
            assert(walk(ar, pidx, 1) == walk(ar, pidx + 1, a));
        } else {
            lemma_child_cover(ar, pidx, j, t + 1);
        }
    }
}

/// `q` fills the `k`-th argument slot of the node at `p`.
pub open spec fn child_slot(ar: Seq<nat>, p: int, k: int, q: int) -> bool {
    0 <= p < ar.len() && 0 <= k < ar[p] && nth_child(ar, p, k) == q
}

/// Sibling subtrees are separated: an earlier child's subtree ends no
/// later than a later child starts.
pub proof fn lemma_child_range_sep(ar: Seq<nat>, p: int, k1: int, k2: int)
    requires
        ar.len() <= usize::MAX,
        subtree_ok(ar, p),
        0 <= k1 < k2 <= ar[p],
    ensures
        walk(ar, nth_child(ar, p, k1), 1) <= nth_child(ar, p, k2),
    decreases k2 - k1,
{
    lemma_child_in_parent(ar, p, k1);
    if k1 + 1 < k2 {
        lemma_child_range_sep(ar, p, k1 + 1, k2);
        lemma_child_in_parent(ar, p, k1 + 1);
        lemma_walk_bounds(ar, nth_child(ar, p, k1 + 1), 1);
    }
}

/// Existence half of the one-parent law: every index strictly inside a
/// complete subtree fills some argument slot of some node of it.
pub proof fn lemma_child_slot_exists(ar: Seq<nat>, i: int, q: int)
    requires
        subtree_ok(ar, i),
        i < q < walk(ar, i, 1),
    ensures
        exists|p: int, k: int| child_slot(ar, p, k, q),
    decreases q - i,
{
    assert(ar[i] > 0) by {
        if ar[i] == 0 {
            assert(walk(ar, i, 1) == walk(ar, i + 1, 0));
        }
    }
    assert(nth_child(ar, i, 0) == i + 1);
    lemma_child_cover(ar, i, q, 0);
    let u = choose|u: int| covers(ar, i, u, q);
    lemma_child_in_parent(ar, i, u);
    let c = nth_child(ar, i, u);
    if c == q {
        assert(child_slot(ar, i, u, q));
    } else {
        lemma_child_slot_exists(ar, c, q);
    }
}

/// Uniqueness half of the one-parent law: an index fills at most one
/// argument slot of one node. With distinct parents the earlier parent's
/// separated child ranges leave the claimed slot no room.
pub proof fn lemma_child_slot_unique(ar: Seq<nat>, q: int, p1: int, k1: int, p2: int, k2: int)
    requires
        valid(ar),
        ar.len() <= usize::MAX,
        child_slot(ar, p1, k1, q),
        child_slot(ar, p2, k2, q),
    ensures
        p1 == p2 && k1 == k2,
{
    lemma_valid_subtree_ok(ar, p1);
    lemma_child_in_parent(ar, p1, k1);
    if p1 == p2 {
        if k1 < k2 {
            lemma_child_range_sep(ar, p1, k1, k2);
            lemma_walk_bounds(ar, q, 1);
        } else if k2 < k1 {
            lemma_child_range_sep(ar, p1, k2, k1);
            lemma_walk_bounds(ar, q, 1);
        }
    } else {
        let pa: int = if p1 < p2 {
            p1
        } else {
            p2
        };
        let ka: int = if p1 < p2 {
            k1
        } else {
            k2
        };
        let pb: int = if p1 < p2 {
            p2
        } else {
            p1
        };
        let kb: int = if p1 < p2 {
            k2
        } else {
            k1
        };
        lemma_valid_subtree_ok(ar, pa);
        lemma_valid_subtree_ok(ar, pb);
        lemma_child_in_parent(ar, pa, ka);
        lemma_child_in_parent(ar, pb, kb);
        assert(pa < q < walk(ar, pa, 1));
        assert(pb < q < walk(ar, pb, 1));
        assert(pb < walk(ar, pa, 1));
        assert(ar[pa] > 0);
        assert(nth_child(ar, pa, 0) == pa + 1);
        lemma_child_cover(ar, pa, pb, 0);
        let u = choose|u: int| covers(ar, pa, u, pb);
        lemma_child_in_parent(ar, pa, u);
        let cu = nth_child(ar, pa, u);
        lemma_nest(ar, cu, pb);
        assert(walk(ar, pb, 1) <= walk(ar, cu, 1));
        assert(cu <= pb < q);
        assert(q < walk(ar, cu, 1));
        if ka == u {
            assert(q == cu);
            assert(false);
        } else if ka < u {
            lemma_child_range_sep(ar, pa, ka, u);
            lemma_walk_bounds(ar, q, 1);
            assert(false);
        } else {
            lemma_child_range_sep(ar, pa, u, ka);
            assert(false);
        }
    }
}

/// Subtrees nest: the subtree of any index inside a complete subtree stays
/// inside it.
pub proof fn lemma_nest(ar: Seq<nat>, i: int, q: int)
    requires
        subtree_ok(ar, i),
        i <= q < walk(ar, i, 1),
    ensures
        subtree_ok(ar, q),
        walk(ar, q, 1) <= walk(ar, i, 1),
    decreases walk(ar, i, 1) - i,
{
    if q != i {
        assert(ar[i] > 0) by {
            if ar[i] == 0 {
                assert(walk(ar, i, 1) == walk(ar, i + 1, 0));
                assert(walk(ar, i + 1, 0) == i + 1);
            }
        }
        assert(nth_child(ar, i, 0) == i + 1);
        lemma_child_cover(ar, i, q, 0);
        let u = choose|u: int| covers(ar, i, u, q);
        lemma_child_in_parent(ar, i, u);
        lemma_nest(ar, nth_child(ar, i, u), q);
    }
}

/// The open-slot depths after a pre-order scan of the first `k` arities:
/// the scan starts with one root slot at depth zero, and each position
/// fills the newest open slot and opens `ar[pos]` slots one level deeper.
pub open spec fn depth_stack(ar: Seq<nat>, k: int) -> Seq<nat>
    decreases k,
{
    if k <= 0 {
        seq![0nat]
    } else {
        let st = depth_stack(ar, k - 1);
        if st.len() == 0 {
            st
        } else {
            st.drop_last() + Seq::new(
                if k - 1 < ar.len() {
                    ar[k - 1]
                } else {
                    0
                },
                |t: int| (st.last() + 1) as nat,
            )
        }
    }
}

/// Depth of the node at `j`: the level of the slot it fills in the scan.
pub open spec fn node_depth(ar: Seq<nat>, j: int) -> nat {
    let st = depth_stack(ar, j);
    if st.len() > 0 {
        st.last()
    } else {
        0
    }
}

/// The slot scan reads only the arities before its cutoff.
pub proof fn lemma_depth_stack_take(ar1: Seq<nat>, ar2: Seq<nat>, k: int)
    requires
        0 <= k <= ar1.len(),
        k <= ar2.len(),
        forall|t: int| 0 <= t < k ==> ar1[t] == ar2[t],
    ensures
        depth_stack(ar1, k) == depth_stack(ar2, k),
    decreases k,
{
    if k > 0 {
        lemma_depth_stack_take(ar1, ar2, k - 1);
    }
}

/// The arity sequence a children index implies: the child count recorded
/// under each of the `n` positions.
pub open spec fn code_from(n: nat, kids: Map<usize, Seq<usize>>) -> Seq<nat> {
    Seq::new(
        n,
        |q: int|
            if kids.contains_key(q as usize) {
                kids[q as usize].len()
            } else {
                0
            },
    )
}

/// A valid arity sequence is recovered exactly from its own derived
/// children index.
pub proof fn lemma_code_determined(ar: Seq<nat>)
    requires
        valid(ar),
        ar.len() <= usize::MAX,
    ensures
        code_from(ar.len(), children_of(ar)) == ar,
{
    let n = ar.len();
    let kids = children_of(ar);
    assert forall|q: int| 0 <= q < n implies code_from(n, kids)[q] == ar[q] by {
        let qu = q as usize;
        assert(qu as int == q);
        if ar[q] > 0 {
            assert(kids.contains_key(qu));
            assert(kids[qu] == child_seq(ar, q));
            assert(child_seq(ar, q).len() == ar[q]);
        } else {
            assert(!kids.contains_key(qu));
        }
    }
    assert(code_from(n, kids) =~= ar);
}

/// Number of arena slots the subtree at `s` occupies.
pub open spec fn size_at(ar: Seq<nat>, s: int) -> int {
    walk(ar, s, 1) - s
}

/// Total size of the subtrees rooted at a stack's entries.
pub open spec fn stack_weight(ar: Seq<nat>, st: Seq<usize>) -> int
    decreases st.len(),
{
    if st.len() == 0 {
        0
    } else {
        stack_weight(ar, st.drop_last()) + size_at(ar, st.last() as int)
    }
}

/// Stack weights add over concatenation.
pub proof fn lemma_stack_weight_append(ar: Seq<nat>, s1: Seq<usize>, s2: Seq<usize>)
    ensures
        stack_weight(ar, s1 + s2) == stack_weight(ar, s1) + stack_weight(ar, s2),
    decreases s2.len(),
{
    if s2.len() == 0 {
        assert(s1 + s2 =~= s1);
    } else {
        lemma_stack_weight_append(ar, s1, s2.drop_last());
        assert((s1 + s2).drop_last() =~= s1 + s2.drop_last());
        assert((s1 + s2).last() == s2.last());
    }
}

/// A stack of complete subtrees has nonnegative weight; every entry counts
/// at least one slot.
pub proof fn lemma_stack_weight_nonneg(ar: Seq<nat>, st: Seq<usize>)
    requires
        forall|t: int| 0 <= t < st.len() ==> subtree_ok(ar, #[trigger] st[t] as int),
    ensures
        stack_weight(ar, st) >= st.len(),
    decreases st.len(),
{
    if st.len() > 0 {
        lemma_stack_weight_nonneg(ar, st.drop_last());
        lemma_walk_bounds(ar, st.last() as int, 1);
    }
}

/// The first `k` children of the node at `q` cover the slots up to the
/// `k`-th child's start.
pub proof fn lemma_child_prefix_weight(ar: Seq<nat>, q: int, k: int)
    requires
        ar.len() <= usize::MAX,
        subtree_ok(ar, q),
        0 <= k <= ar[q],
    ensures
        stack_weight(ar, child_seq(ar, q).take(k)) == nth_child(ar, q, k) - (q + 1),
    decreases k,
{
    if k == 0 {
        assert(child_seq(ar, q).take(0) =~= Seq::<usize>::empty());
    } else {
        lemma_child_prefix_weight(ar, q, k - 1);
        lemma_child_in_parent(ar, q, k - 1);
        assert(0 < nth_child(ar, q, k - 1) <= ar.len());
        assert((nth_child(ar, q, k - 1) as usize) as int == nth_child(ar, q, k - 1));
        assert(child_seq(ar, q).take(k).drop_last() =~= child_seq(ar, q).take(k - 1));
        assert(child_seq(ar, q).take(k).last() == child_seq(ar, q)[k - 1]);
        assert(child_seq(ar, q)[k - 1] == nth_child(ar, q, k - 1) as usize);
        assert(nth_child(ar, q, k) == walk(ar, nth_child(ar, q, k - 1), 1));
    }
}

/// A node's whole child list weighs one slot less than the node's subtree.
pub proof fn lemma_child_list_weight(ar: Seq<nat>, q: int)
    requires
        ar.len() <= usize::MAX,
        subtree_ok(ar, q),
        ar[q] > 0,
    ensures
        stack_weight(ar, child_seq(ar, q)) == size_at(ar, q) - 1,
{
    let a = ar[q] as int;
    lemma_child_prefix_weight(ar, q, a);
    assert(child_seq(ar, q).take(a) =~= child_seq(ar, q));
    lemma_nth_child_walk(ar, q, a);
    assert(walk(ar, q, 1) == walk(ar, q + 1, ar[q]));
}

/// The arity sequence of spliced labels is the splice of the arity
/// sequences.
pub proof fn lemma_arity_seq_splice(
    ops: Seq<Seq<char>>,
    ars: Seq<usize>,
    li: Seq<Seq<char>>,
    ls: Seq<Seq<char>>,
    x: int,
    e1: int,
)
    requires
        0 <= x <= e1 <= li.len(),
    ensures
        arity_seq(ops, ars, li.subrange(0, x) + ls + li.subrange(e1, li.len() as int))
            == arity_seq(ops, ars, li).subrange(0, x) + arity_seq(ops, ars, ls) + arity_seq(
            ops,
            ars,
            li,
        ).subrange(e1, li.len() as int),
{
    let lhs = arity_seq(ops, ars, li.subrange(0, x) + ls + li.subrange(e1, li.len() as int));
    let rhs = arity_seq(ops, ars, li).subrange(0, x) + arity_seq(ops, ars, ls) + arity_seq(
        ops,
        ars,
        li,
    ).subrange(e1, li.len() as int);
    assert forall|j: int| 0 <= j < lhs.len() implies lhs[j] == rhs[j] by {}
    assert(lhs =~= rhs);
}

/// A complete subtree, cut out of its arena, is a valid encoding on its
/// own.
pub proof fn lemma_subtree_slice_valid(ar: Seq<nat>, x: int)
    requires
        subtree_ok(ar, x),
    ensures
        valid(ar.subrange(x, walk(ar, x, 1))),
{
    let e1 = walk(ar, x, 1);
    lemma_walk_bounds(ar, x, 1);
    let s = ar.subrange(x, e1);
    lemma_walk_char(ar, x, 1);
    assert forall|k: int| 0 <= k <= s.len() implies pend(s, 0, 1, k) == pend(ar, x, 1, x + k) by {
        lemma_psum_offset(ar, s, x, k);
    }
    assert(pend(s, 0, 1, s.len() as int) == 0);
    lemma_walk_first_zero(s, 0, 1, s.len() as int);
}

} // verus!
