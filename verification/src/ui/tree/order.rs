//! What the order of drawing holds: each node of the tree once, a node
//! before all that stands below it, and the children of a node in their
//! order. Nodes are named by their places in the tree.

use crate::ui::tree::inode::{InodeId, Inodeable};
use crate::ui::tree::itree::{draws_before, Itree};
use vstd::prelude::*;

verus! {

/// A value is in a sequence of two parts exactly if it is in one of them.
pub proof fn lemma_concat_contains<A>(a: Seq<A>, b: Seq<A>, x: A)
    ensures
        (a + b).contains(x) <==> a.contains(x) || b.contains(x),
{
    if a.contains(x) {
        let i = choose|i: int| 0 <= i < a.len() && a[i] == x;
        assert((a + b)[i] == x);
    }
    if b.contains(x) {
        let i = choose|i: int| 0 <= i < b.len() && b[i] == x;
        assert((a + b)[a.len() + i] == x);
    }
    if (a + b).contains(x) {
        let i = choose|i: int| 0 <= i < (a + b).len() && (a + b)[i] == x;
        if i < a.len() {
            assert(a[i] == x);
        } else {
            assert(b[i - a.len()] == x);
        }
    }
}

/// Two parts without a value in common, each without a value twice, make a
/// sequence without a value twice.
pub proof fn lemma_concat_no_duplicates<A>(a: Seq<A>, b: Seq<A>)
    requires
        a.no_duplicates(),
        b.no_duplicates(),
        forall|x: A| !(a.contains(x) && b.contains(x)),
    ensures
        (a + b).no_duplicates(),
{
    assert forall|i: int, j: int| 0 <= i < j < (a + b).len() implies (a + b)[i] != (a + b)[j] by {
        if i < a.len() && j >= a.len() {
            assert(a.contains(a[i]));
            assert(b.contains(b[j - a.len()]));
        }
    }
}

impl<T: Inodeable> Itree<T> {
    /// Node `i` is in the tree, at node `id` or below it.
    pub open spec fn in_subtree(&self, i: int, id: int) -> bool {
        self.contains(i) && self.below(i, id)
    }

    /// The place among the children of node `id` of the child that node `i`
    /// is or stands below.
    pub open spec fn branch(&self, i: int, id: int) -> int {
        choose|j: int|
            0 <= j < self.spec_children(id).len() && self.below(
                i,
                #[trigger] self.spec_children(id)[j] as int,
            )
    }

    /// Node `i` is in the tree, below node `id`, at or below one of its
    /// children from child `k` on.
    pub open spec fn in_branches(&self, i: int, id: int, k: int) -> bool {
        self.contains(i) && self.below(i, id) && i != id && self.branch(i, id) >= k
    }

    /// What stands at or below a child of a node stands below the node.
    pub proof fn lemma_ascend(self, i: int, c: int, id: int)
        requires
            self.wf_links(),
            self.edge(id, c),
            self.below(i, c),
        ensures
            self.below(i, id),
            i > id,
        decreases i,
    {
        self.lemma_len();
        if i != c {
            self.lemma_ascend(self.spec_parent(i), c, id);
        } else {
            assert(self.below(id, id));
        }
    }

    /// What stands below a node stands at or below one of its children.
    pub proof fn lemma_descend(self, i: int, id: int) -> (j: int)
        requires
            self.wf_links(),
            self.contains(i),
            self.below(i, id),
            i != id,
        ensures
            0 <= j < self.spec_children(id).len(),
            self.below(i, self.spec_children(id)[j] as int),
        decreases i,
    {
        self.lemma_len();
        let p = self.spec_parent(i);
        if p == id {
            assert(self.spec_children(p).contains(i as usize));
            let j = choose|j: int|
                0 <= j < self.spec_children(p).len() && self.spec_children(p)[j] == i as usize;
            j
        } else {
            let j = self.lemma_descend(p, id);
            j
        }
    }

    /// At or below two children of one node stands nothing but under one
    /// and the same child.
    pub proof fn lemma_one_branch(self, i: int, a: int, b: int, p: int)
        requires
            self.wf_links(),
            self.edge(p, a),
            self.edge(p, b),
            self.below(i, a),
            self.below(i, b),
        ensures
            a == b,
        decreases i,
    {
        self.lemma_len();
        if i == a {
            if a != b {
                assert(!self.below(p, b));
            }
        } else if i == b {
            assert(!self.below(p, a));
        } else {
            self.lemma_one_branch(self.spec_parent(i), a, b, p);
        }
    }

    /// The branch of a node below node `id` is the one child of `id` that it
    /// is or stands below.
    pub proof fn lemma_branch(self, i: int, id: int, j: int)
        requires
            self.wf_links(),
            self.contains(id),
            self.contains(i),
            self.below(i, id),
            i != id,
        ensures
            0 <= self.branch(i, id) < self.spec_children(id).len(),
            self.below(i, self.spec_children(id)[self.branch(i, id)] as int),
            0 <= j < self.spec_children(id).len() && self.below(i, self.spec_children(id)[j] as int)
                ==> j == self.branch(i, id),
    {
        self.lemma_len();
        let found = self.lemma_descend(i, id);
        let at = self.branch(i, id);
        if 0 <= j < self.spec_children(id).len() && self.below(i, self.spec_children(id)[j] as int) {
            let a = self.spec_children(id)[j] as int;
            let b = self.spec_children(id)[at] as int;
            assert(self.edge(id, a));
            assert(self.edge(id, b));
            self.lemma_one_branch(i, a, b, id);
            if j < at {
                assert(draws_before(self.spec_key(a), self.spec_key(b)));
            } else if at < j {
                assert(draws_before(self.spec_key(b), self.spec_key(a)));
            }
        }
    }

    /// The order of drawing from a node on starts with the node and holds
    /// each node at or below it once, and no other.
    pub proof fn lemma_preorder(self, id: int)
        requires
            self.wf_links(),
            self.contains(id),
        ensures
            self.preorder(id).len() > 0,
            self.preorder(id)[0] == id,
            self.preorder(id).no_duplicates(),
            forall|x: InodeId| #[trigger] self.preorder(id).contains(x) <==> self.in_subtree(x as int, id),
        decreases self.spec_len() - id, self.spec_children(id).len() + 1,
    {
        self.lemma_len();
        self.lemma_preorder_from(id, 0);
        let head = seq![id as usize];
        let rest = self.preorder_from(id, 0);
        assert(self.preorder(id) == head + rest);
        assert forall|x: InodeId| #[trigger]
            self.preorder(id).contains(x) <==> self.in_subtree(x as int, id) by {
            lemma_concat_contains(head, rest, x);
            if x == id {
                assert(head[0] == x);
            } else {
                if head.contains(x) {
                    let i = choose|i: int| 0 <= i < head.len() && head[i] == x;
                    assert(head[i] == id);
                }
                if self.in_subtree(x as int, id) {
                    self.lemma_branch(x as int, id, 0);
                }
            }
        }
        assert forall|x: InodeId| !(head.contains(x) && rest.contains(x)) by {
            if head.contains(x) {
                let i = choose|i: int| 0 <= i < head.len() && head[i] == x;
                assert(head[i] == id);
            }
        }
        lemma_concat_no_duplicates(head, rest);
    }

    /// The order of drawing of the children of a node from child `k` on holds
    /// each node at or below those children once, and no other.
    pub proof fn lemma_preorder_from(self, id: int, k: int)
        requires
            self.wf_links(),
            self.contains(id),
            0 <= k <= self.spec_children(id).len(),
        ensures
            self.preorder_from(id, k).no_duplicates(),
            forall|x: InodeId| #[trigger]
                self.preorder_from(id, k).contains(x) <==> self.in_branches(x as int, id, k),
        decreases self.spec_len() - id, self.spec_children(id).len() - k,
    {
        self.lemma_len();
        if k < self.spec_children(id).len() {
            let c = self.spec_children(id)[k] as int;
            assert(self.edge(id, c));
            self.lemma_preorder(c);
            self.lemma_preorder_from(id, k + 1);
            let first = self.preorder(c);
            let rest = self.preorder_from(id, k + 1);
            assert(self.preorder_from(id, k) == first + rest);
            assert forall|x: InodeId| #[trigger]
                self.preorder_from(id, k).contains(x) <==> self.in_branches(x as int, id, k) by {
                lemma_concat_contains(first, rest, x);
                if self.in_subtree(x as int, c) {
                    self.lemma_ascend(x as int, c, id);
                    self.lemma_branch(x as int, id, k);
                }
                if self.in_branches(x as int, id, k) {
                    self.lemma_branch(x as int, id, k);
                }
            }
            assert forall|x: InodeId| !(first.contains(x) && rest.contains(x)) by {
                if self.in_subtree(x as int, c) {
                    self.lemma_ascend(x as int, c, id);
                    self.lemma_branch(x as int, id, k);
                }
            }
            lemma_concat_no_duplicates(first, rest);
        } else {
            assert forall|x: InodeId| #[trigger]
                self.preorder_from(id, k).contains(x) <==> self.in_branches(x as int, id, k) by {
                if self.in_branches(x as int, id, k) {
                    self.lemma_branch(x as int, id, k);
                }
            }
        }
    }

    /// The whole order of drawing starts with the root and holds each node
    /// of the tree once, and nothing else.
    pub proof fn lemma_draw_order(self)
        requires
            self.wf(),
        ensures
            self.preorder(0).len() > 0,
            self.preorder(0)[0] == 0,
            self.preorder(0).no_duplicates(),
            forall|x: InodeId| #[trigger] self.preorder(0).contains(x) <==> self.contains(x as int),
    {
        self.lemma_len();
        self.lemma_preorder(0);
        assert forall|x: InodeId| #[trigger] self.preorder(0).contains(x) <==> self.contains(
            x as int,
        ) by {
            if self.contains(x as int) {
                self.lemma_below_root(x as int);
            }
        }
    }

    /// Every node of the tree is the root or stands below it.
    pub proof fn lemma_below_root(self, i: int)
        requires
            self.wf_links(),
            self.contains(i),
        ensures
            self.below(i, 0),
        decreases i,
    {
        if i > 0 {
            self.lemma_below_root(self.spec_parent(i));
        }
    }

    /// The children of a node stand in the order of drawing: by ascending
    /// z-index, and those of one z-index in the order of their insertion.
    pub proof fn lemma_children_order(self, p: int, j: int, k: int)
        requires
            self.wf(),
            0 <= p < self.spec_len(),
            0 <= j < k < self.spec_children(p).len(),
        ensures
            draws_before(
                self.spec_key(self.spec_children(p)[j] as int),
                self.spec_key(self.spec_children(p)[k] as int),
            ),
    {
    }
}

impl<T: Inodeable> Itree<T> {
    /// In the sequence `q`, a node stands before all that stands below it.
    pub open spec fn parents_first(&self, q: Seq<InodeId>) -> bool {
        forall|a: int, b: int|
            0 <= a < q.len() && 0 <= b < q.len() && #[trigger] q[a] != #[trigger] q[b] && self.below(
                q[b] as int,
                q[a] as int,
            ) ==> a < b
    }

    /// In the sequence `q`, of two children of one node the one that is
    /// drawn before the other stands before it. (The root is no child.)
    pub open spec fn siblings_in_order(&self, q: Seq<InodeId>) -> bool {
        forall|a: int, b: int|
            0 <= a < q.len() && 0 <= b < q.len() && q[a] > 0 && q[b] > 0 && self.spec_parent(
                #[trigger] q[a] as int,
            ) == self.spec_parent(#[trigger] q[b] as int) && draws_before(
                self.spec_key(q[a] as int),
                self.spec_key(q[b] as int),
            ) ==> a < b
    }

    /// What stands below a node stands below all that the node stands below.
    pub proof fn lemma_below_trans(self, x: int, y: int, z: int)
        requires
            self.below(x, y),
            self.below(y, z),
        ensures
            self.below(x, z),
        decreases x,
    {
        if x != y {
            self.lemma_below_trans(self.spec_parent(x), y, z);
        }
    }

    /// Two nodes at or below different children of one node: neither stands
    /// below the other, and they are no children of one node unless they are
    /// those two children.
    proof fn lemma_apart(self, id: int, j: int, k: int, x: int, y: int)
        requires
            self.wf_links(),
            self.contains(id),
            0 <= j < self.spec_children(id).len(),
            0 <= k < self.spec_children(id).len(),
            j != k,
            self.in_subtree(x, self.spec_children(id)[j] as int),
            self.in_subtree(y, self.spec_children(id)[k] as int),
        ensures
            !self.below(x, y),
            self.spec_parent(x) == self.spec_parent(y) ==> x == self.spec_children(id)[j] && y
                == self.spec_children(id)[k],
    {
        self.lemma_len();
        let a = self.spec_children(id)[j] as int;
        let b = self.spec_children(id)[k] as int;
        assert(self.edge(id, a));
        assert(self.edge(id, b));
        if a == b {
            if j < k {
                assert(draws_before(self.spec_key(a), self.spec_key(b)));
            } else {
                assert(draws_before(self.spec_key(b), self.spec_key(a)));
            }
        }
        if self.below(x, y) {
            self.lemma_below_trans(x, y, b);
            self.lemma_one_branch(x, a, b, id);
        }
        if self.spec_parent(x) == self.spec_parent(y) {
            let p = self.spec_parent(x);
            if x != a && y != b {
                self.lemma_one_branch(p, a, b, id);
            } else if x != a {
                // the parent of `y` is `id`, which stands below no child of its own
                assert(!self.below(id, a));
            } else if y != b {
                assert(!self.below(id, b));
            }
        }
    }

    /// The order of drawing from a node on has each node before all that
    /// stands below it, and the children of each node in their order.
    pub proof fn lemma_preorder_ordered(self, id: int)
        requires
            self.wf_links(),
            self.contains(id),
        ensures
            self.parents_first(self.preorder(id)),
            self.siblings_in_order(self.preorder(id)),
        decreases self.spec_len() - id, self.spec_children(id).len() + 1,
    {
        self.lemma_len();
        self.lemma_preorder_from(id, 0);
        self.lemma_preorder_from_ordered(id, 0);
        let head = seq![id as usize];
        let rest = self.preorder_from(id, 0);
        let q = self.preorder(id);
        assert(q == head + rest);
        assert forall|a: int, b: int|
            0 <= a < q.len() && 0 <= b < q.len() && #[trigger] q[a] != #[trigger] q[b] && self.below(
                q[b] as int,
                q[a] as int,
            ) implies a < b by {
            if a > 0 {
                assert(rest.contains(rest[a - 1]));
                if b > 0 {
                    assert(q[a] == rest[a - 1]);
                    assert(q[b] == rest[b - 1]);
                }
            }
        }
        assert forall|a: int, b: int|
            0 <= a < q.len() && 0 <= b < q.len() && q[a] > 0 && q[b] > 0 && self.spec_parent(
                #[trigger] q[a] as int,
            ) == self.spec_parent(#[trigger] q[b] as int) && draws_before(
                self.spec_key(q[a] as int),
                self.spec_key(q[b] as int),
            ) implies a < b by {
            if a > 0 {
                assert(rest.contains(rest[a - 1]));
                if b > 0 {
                    assert(q[a] == rest[a - 1]);
                    assert(q[b] == rest[b - 1]);
                } else {
                    // a node below `id` is no child of the parent of `id`
                    assert(self.below(q[a] as int, id));
                    assert(!self.below(self.spec_parent(id), id));
                }
            }
        }
    }

    /// The order of drawing of the children of a node from child `k` on has
    /// each node before all that stands below it, and the children of each
    /// node in their order.
    pub proof fn lemma_preorder_from_ordered(self, id: int, k: int)
        requires
            self.wf_links(),
            self.contains(id),
            0 <= k <= self.spec_children(id).len(),
        ensures
            self.parents_first(self.preorder_from(id, k)),
            self.siblings_in_order(self.preorder_from(id, k)),
        decreases self.spec_len() - id, self.spec_children(id).len() - k,
    {
        self.lemma_len();
        if k < self.spec_children(id).len() {
            let c = self.spec_children(id)[k] as int;
            assert(self.edge(id, c));
            self.lemma_preorder(c);
            self.lemma_preorder_ordered(c);
            self.lemma_preorder_from(id, k + 1);
            self.lemma_preorder_from_ordered(id, k + 1);
            let first = self.preorder(c);
            let rest = self.preorder_from(id, k + 1);
            let r = self.preorder_from(id, k);
            assert(r == first + rest);
            assert forall|a: int, b: int|
                0 <= a < r.len() && 0 <= b < r.len() && #[trigger] r[a] != #[trigger] r[b] && self.below(
                    r[b] as int,
                    r[a] as int,
                ) implies a < b by {
                if a < first.len() && b < first.len() {
                    assert(r[a] == first[a]);
                    assert(r[b] == first[b]);
                } else if a >= first.len() && b >= first.len() {
                    assert(r[a] == rest[a - first.len()]);
                    assert(r[b] == rest[b - first.len()]);
                } else if b < first.len() {
                    assert(first.contains(first[b]));
                    assert(rest.contains(rest[a - first.len()]));
                    let x = r[b] as int;
                    let y = r[a] as int;
                    self.lemma_branch(y, id, k);
                    self.lemma_apart(id, k, self.branch(y, id), x, y);
                }
            }
            assert forall|a: int, b: int|
                0 <= a < r.len() && 0 <= b < r.len() && r[a] > 0 && r[b] > 0 && self.spec_parent(
                    #[trigger] r[a] as int,
                ) == self.spec_parent(#[trigger] r[b] as int) && draws_before(
                    self.spec_key(r[a] as int),
                    self.spec_key(r[b] as int),
                ) implies a < b by {
                if a < first.len() && b < first.len() {
                    assert(r[a] == first[a]);
                    assert(r[b] == first[b]);
                } else if a >= first.len() && b >= first.len() {
                    assert(r[a] == rest[a - first.len()]);
                    assert(r[b] == rest[b - first.len()]);
                } else if b < first.len() {
                    assert(first.contains(first[b]));
                    assert(rest.contains(rest[a - first.len()]));
                    let x = r[b] as int;
                    let y = r[a] as int;
                    self.lemma_branch(y, id, k);
                    let at = self.branch(y, id);
                    self.lemma_apart(id, k, at, x, y);
                    assert(draws_before(
                        self.spec_key(self.spec_children(id)[k] as int),
                        self.spec_key(self.spec_children(id)[at] as int),
                    ));
                }
            }
        }
    }

    /// In the whole order of drawing a node stands before all that stands
    /// below it, so a parent is drawn before its children.
    pub proof fn lemma_draw_order_parents_first(self, a: int, b: int)
        requires
            self.wf(),
            0 <= a < self.preorder(0).len(),
            0 <= b < self.preorder(0).len(),
            self.preorder(0)[a] != self.preorder(0)[b],
            self.below(self.preorder(0)[b] as int, self.preorder(0)[a] as int),
        ensures
            a < b,
    {
        self.lemma_preorder_ordered(0);
    }

    /// In the whole order of drawing, of two children of one node the one of
    /// the lower z-index is drawn first, and of two of one z-index the one
    /// that was inserted first.
    pub proof fn lemma_draw_order_siblings(self, a: int, b: int)
        requires
            self.wf(),
            0 <= a < self.preorder(0).len(),
            0 <= b < self.preorder(0).len(),
            self.preorder(0)[a] > 0,
            self.preorder(0)[b] > 0,
            self.spec_parent(self.preorder(0)[a] as int) == self.spec_parent(
                self.preorder(0)[b] as int,
            ),
            draws_before(
                self.spec_key(self.preorder(0)[a] as int),
                self.spec_key(self.preorder(0)[b] as int),
            ),
        ensures
            a < b,
    {
        self.lemma_preorder_ordered(0);
    }
}

impl<T: Inodeable> Itree<T> {
    /// The order of drawing by identities starts with the identity of the
    /// root and holds the identity of each node of the tree once, and no
    /// other.
    pub proof fn lemma_draw_order_ids(self)
        requires
            self.wf(),
        ensures
            self.ids_of(self.preorder(0)).len() > 0,
            self.ids_of(self.preorder(0))[0] == self.spec_base(0).id,
            self.ids_of(self.preorder(0)).no_duplicates(),
            forall|id: InodeId| #[trigger] self.ids_of(self.preorder(0)).contains(id) <==> self.holds(id),
    {
        self.lemma_draw_order();
        let places = self.preorder(0);
        let ids = self.ids_of(places);
        assert forall|k: int| 0 <= k < places.len() implies self.contains(#[trigger] places[k] as int) by {
            assert(places.contains(places[k]));
        }
        assert forall|i: int, j: int| 0 <= i < j < ids.len() implies ids[i] != ids[j] by {
            assert(self.contains(places[i] as int));
            assert(self.contains(places[j] as int));
        }
        assert forall|id: InodeId| #[trigger] ids.contains(id) <==> self.holds(id) by {
            self.lemma_holds(id);
            if ids.contains(id) {
                let k = choose|k: int| 0 <= k < ids.len() && ids[k] == id;
                assert(self.contains(places[k] as int) && self.spec_base(places[k] as int).id == id);
            }
            if self.holds(id) {
                let at = choose|i: int| self.contains(i) && self.spec_base(i).id == id;
                self.lemma_len();
                assert(places.contains(at as usize));
                let k = choose|k: int| 0 <= k < places.len() && places[k] == at as usize;
                assert(ids[k] == id);
            }
        }
    }
}

} // verus!
