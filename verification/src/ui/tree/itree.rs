//! The tree itself: nodes keyed by identity, their parent and child edges,
//! the clipping of each node by its parent, and the order of drawing.
//!
//! A node comes with its identity and keeps it. Inside, the tree knows a
//! node by its place: the number of nodes that were inserted before it. The
//! invariant and the frames of the operations are stated over places; the
//! public operations take identities and say by `slot` at which place the
//! node of an identity stands.

use crate::coord::{IRect, Rect, U16Rect};
use crate::ui::tree::inode::{InodeBase, InodeId, Inodeable, TreeError};
use vstd::prelude::*;

verus! {

/// What decides the place of a node among the children of its parent: its
/// z-index, and its place in the order in which the nodes were inserted.
pub struct DrawKey {
    pub zindex: usize,
    pub place: int,
}

/// Among the children of one node, `a` is drawn before `b`: it has the lower
/// z-index, or the same and was inserted earlier.
pub open spec fn draws_before(a: DrawKey, b: DrawKey) -> bool {
    a.zindex < b.zindex || (a.zindex == b.zindex && a.place < b.place)
}

/// The depth of a child of a node at depth `depth`.
pub open spec fn child_depth(depth: usize) -> usize {
    if depth < usize::MAX {
        (depth + 1) as usize
    } else {
        depth
    }
}

/// A tree of nodes, each of an identity of its own. The place of a node is
/// the number of nodes that were inserted before it, so the root stands at
/// place 0 and a parent at a lower place than its children. The place of a
/// removed node stays empty.
#[derive(Debug, Clone)]
pub struct Itree<T: Inodeable> {
    nodes: Vec<Option<T>>,
    parents: Vec<InodeId>,
    children: Vec<Vec<InodeId>>,
}

impl<T: Inodeable> Itree<T> {
    /// The number of places: of nodes that were inserted, the root and those
    /// that were removed again counted in.
    pub closed spec fn spec_len(&self) -> nat {
        self.nodes@.len()
    }

    /// Place `id` holds a node.
    pub closed spec fn contains(&self, id: int) -> bool {
        0 <= id < self.nodes@.len() && self.nodes@[id] is Some
    }

    /// The node at place `id`.
    pub closed spec fn spec_node(&self, id: int) -> T {
        self.nodes@[id]->0
    }

    /// What the node at place `id` holds as a node.
    pub open spec fn spec_base(&self, id: int) -> InodeBase {
        self.spec_node(id).base()
    }

    /// What decides the place of the node at place `id` among the children of its parent.
    pub open spec fn spec_key(&self, id: int) -> DrawKey {
        DrawKey { zindex: self.spec_base(id).zindex, place: id }
    }

    /// The place of the parent of the node at place `id`; the root is its
    /// own.
    pub closed spec fn spec_parent(&self, id: int) -> int {
        self.parents@[id] as int
    }

    /// The places of the children of the node at place `id`, in the order of
    /// drawing.
    pub closed spec fn spec_children(&self, id: int) -> Seq<InodeId> {
        self.children@[id]@
    }

    /// Every place has its edges.
    pub closed spec fn aligned(&self) -> bool {
        self.parents@.len() == self.nodes@.len() && self.children@.len() == self.nodes@.len()
    }

    /// What bounds the node at place `id`: the actual shape of its parent, and for the
    /// root, which has none, the plane.
    pub open spec fn spec_bounds(&self, id: int) -> Rect {
        if id == 0 {
            Rect::plane()
        } else {
            self.spec_base(self.spec_parent(id)).actual_shape@
        }
    }

    /// The actual shape of the node at place `id` is its logical shape clipped by the
    /// actual shape of its parent.
    pub open spec fn clipped(&self, id: int) -> bool {
        self.spec_base(id).actual_shape@ == self.spec_base(id).shape@.intersect(
            self.spec_base(self.spec_parent(id)).actual_shape@,
        )
    }

    /// Each node stands at a place of the tree, and each node but the root
    /// has one parent, which is in the tree, was inserted before it and lists it as a
    /// child.
    pub open spec fn wf_parents(&self) -> bool {
        forall|id: int| #[trigger]
            self.contains(id) ==> {
                &&& 0 <= id < self.spec_len()
                &&& id > 0 ==> {
                    &&& 0 <= self.spec_parent(id) < id
                    &&& self.contains(self.spec_parent(id))
                    &&& self.spec_children(self.spec_parent(id)).contains(id as usize)
                }
            }
    }

    /// Node `c` is a child of node `p`: both are in the tree, `p` was
    /// inserted first, and `c` knows it as its parent.
    pub open spec fn edge(&self, p: int, c: int) -> bool {
        &&& self.contains(p)
        &&& self.contains(c)
        &&& p < c
        &&& self.spec_parent(c) == p
    }

    /// Each entry of a list of children is a child of the node that has the
    /// list.
    pub open spec fn wf_children(&self) -> bool {
        forall|p: int, k: int|
            0 <= p < self.spec_len() && 0 <= k < self.spec_children(p).len() ==> self.edge(
                p,
                #[trigger] self.spec_children(p)[k] as int,
            )
    }

    /// The children of a node stand in the order of drawing.
    pub open spec fn wf_order(&self) -> bool {
        forall|p: int, j: int, k: int|
            0 <= p < self.spec_len() && 0 <= j < k < self.spec_children(p).len() ==> draws_before(
                self.spec_key(#[trigger] self.spec_children(p)[j] as int),
                self.spec_key(#[trigger] self.spec_children(p)[k] as int),
            )
    }

    /// The edges of the tree are sound.
    pub open spec fn wf_links(&self) -> bool {
        &&& self.aligned()
        &&& self.contains(0)
        &&& self.wf_parents()
        &&& self.wf_children()
        &&& self.wf_order()
    }

    /// No two nodes of the tree have one identity.
    pub open spec fn wf_ids(&self) -> bool {
        forall|i: int, j: int|
            #[trigger] self.contains(i) && #[trigger] self.contains(j) && i != j ==> self.spec_base(
                i,
            ).id != self.spec_base(j).id
    }

    /// The tree is sound: so are its edges, no two nodes have one identity,
    /// and each node but the root is clipped by its parent.
    pub open spec fn wf(&self) -> bool {
        &&& self.wf_links()
        &&& self.wf_ids()
        &&& forall|id: int| #[trigger] self.contains(id) && id > 0 ==> self.clipped(id)
    }

    /// A tree that holds `root` alone, as node 0.
    pub fn new(root: T) -> (tree: Self)
        ensures
            tree.wf(),
            tree.spec_len() == 1,
            tree.spec_node(0) == root,
            tree.spec_children(0) == Seq::<InodeId>::empty(),
    {
        let mut nodes: Vec<Option<T>> = Vec::new();
        nodes.push(Some(root));
        let mut parents: Vec<InodeId> = Vec::new();
        parents.push(0);
        let mut children: Vec<Vec<InodeId>> = Vec::new();
        children.push(Vec::new());
        Itree { nodes, parents, children }
    }

    /// The number of places: of nodes that were inserted, the root and those
    /// that were removed again counted in.
    pub fn len(&self) -> (n: usize)
        ensures
            n == self.spec_len(),
    {
        self.nodes.len()
    }

    pub(crate) fn is_live(&self, id: InodeId) -> (b: bool)
        ensures
            b == self.contains(id as int),
    {
        id < self.nodes.len() && self.nodes[id].is_some()
    }

    /// The node at place `id`, if the place holds one.
    pub(crate) fn node_at(&self, id: InodeId) -> (node: Option<&T>)
        ensures
            match node {
                Some(n) => self.contains(id as int) && *n == self.spec_node(id as int),
                None => !self.contains(id as int),
            },
    {
        if id < self.nodes.len() {
            self.nodes[id].as_ref()
        } else {
            None
        }
    }

}

impl<T: Inodeable> Itree<T> {
    /// The place among `siblings`, from place `from` on, of a node that
    /// stands at place `id` of the tree, has z-index `zindex` and is not among
    /// them: before the first sibling that is drawn after it.
    pub open spec fn slot_for(&self, siblings: Seq<InodeId>, zindex: usize, id: InodeId, from: int) -> int
        decreases siblings.len() - from,
    {
        if from < 0 || from >= siblings.len() || draws_before(
            DrawKey { zindex, place: id as int },
            self.spec_key(siblings[from] as int),
        ) {
            from
        } else {
            self.slot_for(siblings, zindex, id, from + 1)
        }
    }

    /// `post` has the nodes and the edges of `pre`, but for what the node at place `id`
    /// holds.
    pub open spec fn same_but(pre: Self, post: Self, id: int) -> bool {
        &&& post.spec_len() == pre.spec_len()
        &&& forall|i: int|
            #![trigger post.contains(i)]
            #![trigger post.spec_parent(i)]
            #![trigger post.spec_children(i)]
            #![trigger post.spec_node(i)]
            0 <= i < pre.spec_len() ==> {
                &&& post.contains(i) == pre.contains(i)
                &&& post.spec_parent(i) == pre.spec_parent(i)
                &&& post.spec_children(i) == pre.spec_children(i)
                &&& i != id ==> post.spec_node(i) == pre.spec_node(i)
            }
    }

    /// As `wf_links`, but the node at place `id` stands in no list of children: it waits
    /// to be put among the children of its parent.
    spec fn wf_detached(&self, id: int) -> bool {
        &&& self.aligned()
        &&& self.contains(0)
        &&& self.contains(id)
        &&& 0 <= self.spec_parent(id) < id
        &&& self.contains(self.spec_parent(id))
        &&& forall|i: int| #[trigger]
            self.contains(i) ==> {
                &&& 0 <= i < self.spec_len()
                &&& i > 0 && i != id ==> {
                    &&& 0 <= self.spec_parent(i) < i
                    &&& self.contains(self.spec_parent(i))
                    &&& self.spec_children(self.spec_parent(i)).contains(i as usize)
                }
            }
        &&& self.wf_children()
        &&& self.wf_order()
        &&& forall|p: int, k: int|
            0 <= p < self.spec_len() && 0 <= k < self.spec_children(p).len()
                ==> #[trigger] self.spec_children(p)[k] != id
    }

    /// Identities stay apart where no node comes in and none is renamed.
    proof fn lemma_same_ids(pre: Self, post: Self)
        requires
            pre.wf_ids(),
            forall|i: int| #[trigger]
                post.contains(i) ==> pre.contains(i) && post.spec_base(i).id == pre.spec_base(i).id,
        ensures
            post.wf_ids(),
    {
        assert forall|i: int, j: int|
            #[trigger] post.contains(i) && #[trigger] post.contains(j) && i != j implies post.spec_base(
            i,
        ).id != post.spec_base(j).id by {
            assert(pre.contains(i));
            assert(pre.contains(j));
        }
    }

    /// The place of a node among siblings rests on what the siblings hold
    /// alone.
    proof fn lemma_slot_for_same(a: Self, b: Self, siblings: Seq<InodeId>, zindex: usize, id: InodeId, from: int)
        requires
            forall|k: int|
                0 <= k < siblings.len() ==> a.spec_base(#[trigger] siblings[k] as int) == b.spec_base(
                    siblings[k] as int,
                ),
        ensures
            a.slot_for(siblings, zindex, id, from) == b.slot_for(siblings, zindex, id, from),
        decreases siblings.len() - from,
    {
        if 0 <= from < siblings.len() {
            assert(a.spec_base(siblings[from] as int) == b.spec_base(siblings[from] as int));
            Self::lemma_slot_for_same(a, b, siblings, zindex, id, from + 1);
        }
    }

    /// Edges stay sound where a node changes in nothing that they rest on.
    proof fn lemma_same_links(pre: Self, post: Self, id: int)
        requires
            pre.wf_links(),
            post.aligned(),
            Self::same_but(pre, post, id),
            pre.contains(id) ==> post.spec_base(id).id == pre.spec_base(id).id && post.spec_base(
                id,
            ).zindex == pre.spec_base(id).zindex,
        ensures
            post.wf_links(),
    {
        assert forall|i: int| #[trigger] post.contains(i) implies {
            &&& 0 <= i < post.spec_len()
            &&& i > 0 ==> {
                &&& 0 <= post.spec_parent(i) < i
                &&& post.contains(post.spec_parent(i))
                &&& post.spec_children(post.spec_parent(i)).contains(i as usize)
            }
        } by {
            assert(pre.contains(i));
            if i > 0 {
                assert(post.contains(pre.spec_parent(i)) == pre.contains(pre.spec_parent(i)));
            }
        }
        assert(post.wf_parents());
        assert forall|p: int, k: int|
            0 <= p < post.spec_len() && 0 <= k < post.spec_children(p).len() implies post.edge(p, #[trigger] post.spec_children(p)[k] as int) by {
            assert(post.contains(p) == pre.contains(p));
            let c = pre.spec_children(p)[k];
            assert(post.contains(c as int) == pre.contains(c as int));
        }
        assert(post.wf_children());
        assert forall|p: int, j: int, k: int|
            0 <= p < post.spec_len() && 0 <= j < k < post.spec_children(p).len() implies draws_before(
            post.spec_key(#[trigger] post.spec_children(p)[j] as int),
            post.spec_key(#[trigger] post.spec_children(p)[k] as int),
        ) by {
            assert(post.contains(p) == pre.contains(p));
            let a = pre.spec_children(p)[j];
            let b = pre.spec_children(p)[k];
            assert(pre.contains(a as int));
            assert(pre.contains(b as int));
            assert(draws_before(pre.spec_key(a as int), pre.spec_key(b as int)));
        }
        assert(post.wf_order());
        assert(post.contains(0) == pre.contains(0));
    }

    /// The node at place `id`.
    fn get(&self, id: InodeId) -> (node: &T)
        requires
            self.contains(id as int),
        ensures
            *node == self.spec_node(id as int),
    {
        self.nodes[id].as_ref().unwrap()
    }

    /// The place among the children of `parent_id` of a node at place `id`
    /// and z-index `zindex` that is not among them.
    fn slot_of(&self, parent_id: InodeId, zindex: usize, id: InodeId) -> (slot: usize)
        requires
            self.aligned(),
            self.wf_children(),
            self.wf_order(),
            self.contains(parent_id as int),
            forall|k: int|
                0 <= k < self.spec_children(parent_id as int).len() ==> #[trigger] self.spec_children(
                    parent_id as int,
                )[k] != id,
        ensures
            slot == self.slot_for(self.spec_children(parent_id as int), zindex, id, 0),
            slot <= self.spec_children(parent_id as int).len(),
            forall|k: int|
                0 <= k < slot ==> draws_before(
                    self.spec_key(#[trigger] self.spec_children(parent_id as int)[k] as int),
                    DrawKey { zindex, place: id as int },
                ),
            forall|k: int|
                slot <= k < self.spec_children(parent_id as int).len() ==> draws_before(
                    DrawKey { zindex, place: id as int },
                    self.spec_key(#[trigger] self.spec_children(parent_id as int)[k] as int),
                ),
    {
        let ghost siblings = self.spec_children(parent_id as int);
        let mut slot: usize = 0;
        loop
            invariant
                self.aligned(),
                self.wf_children(),
                self.wf_order(),
                self.contains(parent_id as int),
                0 <= parent_id < self.spec_len(),
                siblings == self.spec_children(parent_id as int),
                forall|k: int| 0 <= k < siblings.len() ==> #[trigger] siblings[k] != id,
                slot <= siblings.len(),
                self.slot_for(siblings, zindex, id, slot as int) == self.slot_for(
                    siblings,
                    zindex,
                    id,
                    0,
                ),
                forall|k: int|
                    0 <= k < slot ==> draws_before(
                        self.spec_key(#[trigger] siblings[k] as int),
                        DrawKey { zindex, place: id as int },
                    ),
            ensures
                slot <= siblings.len(),
                slot == self.slot_for(siblings, zindex, id, 0),
                forall|k: int|
                    0 <= k < slot ==> draws_before(
                        self.spec_key(#[trigger] siblings[k] as int),
                        DrawKey { zindex, place: id as int },
                    ),
                slot < siblings.len() ==> draws_before(
                    DrawKey { zindex, place: id as int },
                    self.spec_key(siblings[slot as int] as int),
                ),
            decreases siblings.len() - slot,
        {
            if slot >= self.children[parent_id].len() {
                break ;
            }
            let c = self.children[parent_id][slot];
            assert(c == siblings[slot as int]);
            assert(self.contains(c as int));
            let cz: usize = *self.get(c).zindex();
            if zindex < cz || (zindex == cz && id < c) {
                break ;
            }
            slot = slot + 1;
        }
        assert forall|k: int| slot <= k < siblings.len() implies draws_before(
            DrawKey { zindex, place: id as int },
            self.spec_key(#[trigger] siblings[k] as int),
        ) by {
            if k > slot {
                assert(draws_before(
                    self.spec_key(siblings[slot as int] as int),
                    self.spec_key(siblings[k] as int),
                ));
            }
        }
        slot
    }

    /// Puts the node at place `id`, which stands in no list of children, among the
    /// children of its parent, at its place in the order of drawing.
    fn attach(&mut self, id: InodeId)
        requires
            old(self).wf_detached(id as int),
        ensures
            final(self).wf_links(),
            final(self).spec_len() == old(self).spec_len(),
            forall|i: int|
                #![trigger final(self).contains(i)]
                #![trigger final(self).spec_parent(i)]
                #![trigger final(self).spec_children(i)]
                #![trigger final(self).spec_node(i)]
                0 <= i < old(self).spec_len() ==> {
                    &&& final(self).contains(i) == old(self).contains(i)
                    &&& final(self).spec_node(i) == old(self).spec_node(i)
                    &&& final(self).spec_parent(i) == old(self).spec_parent(i)
                    &&& i != old(self).spec_parent(id as int) ==> final(self).spec_children(i) == old(
                        self,
                    ).spec_children(i)
                },
            final(self).spec_children(old(self).spec_parent(id as int)) == old(self).spec_children(
                old(self).spec_parent(id as int),
            ).insert(
                old(self).slot_for(
                    old(self).spec_children(old(self).spec_parent(id as int)),
                    old(self).spec_base(id as int).zindex,
                    id,
                    0,
                ),
                id,
            ),
    {
        let ghost pre = *self;
        let parent_id: usize = self.parents[id];
        let ghost siblings = self.spec_children(parent_id as int);
        let zindex: usize = *self.get(id).zindex();
        let slot = self.slot_of(parent_id, zindex, id);
        self.children[parent_id].insert(slot, id);
        proof {
            let grown = siblings.insert(slot as int, id);
            assert(self.spec_children(parent_id as int) == grown);
            assert(self.aligned());
            assert forall|i: int|
                #![trigger self.contains(i)]
                #![trigger self.spec_parent(i)]
                #![trigger self.spec_children(i)]
                #![trigger self.spec_node(i)]
                0 <= i < pre.spec_len() implies {
                &&& self.contains(i) == pre.contains(i)
                &&& self.spec_node(i) == pre.spec_node(i)
                &&& self.spec_parent(i) == pre.spec_parent(i)
                &&& i != parent_id ==> self.spec_children(i) == pre.spec_children(i)
            } by {}
            assert forall|k: int| 0 <= k < siblings.len() implies siblings[k] == grown[if k < slot {
                k
            } else {
                k + 1
            }] by {}
            assert forall|i: int| #[trigger] self.contains(i) implies {
                &&& 0 <= i < self.spec_len()
                &&& i > 0 ==> {
                    &&& 0 <= self.spec_parent(i) < i
                    &&& self.contains(self.spec_parent(i))
                    &&& self.spec_children(self.spec_parent(i)).contains(i as usize)
                }
            } by {
                assert(pre.contains(i));
                if i == id {
                    assert(grown[slot as int] == id);
                } else if i > 0 {
                    let p = pre.spec_parent(i);
                    assert(self.contains(p) == pre.contains(p));
                    assert(pre.spec_children(p).contains(i as usize));
                    if p == parent_id {
                        let k = choose|k: int| 0 <= k < siblings.len() && siblings[k] == i as usize;
                        assert(grown[if k < slot {
                            k
                        } else {
                            k + 1
                        }] == i as usize);
                    }
                }
            }
            assert(self.wf_parents());
            assert forall|p: int, k: int|
                0 <= p < self.spec_len() && 0 <= k < self.spec_children(p).len() implies self.edge(p, #[trigger] self.spec_children(p)[k] as int) by {
                assert(self.contains(p) == pre.contains(p));
                if p == parent_id {
                    if k < slot {
                        assert(grown[k] == siblings[k]);
                        assert(self.contains(siblings[k] as int) == pre.contains(siblings[k] as int));
                    } else if k > slot {
                        assert(grown[k] == siblings[k - 1]);
                        assert(self.contains(siblings[k - 1] as int) == pre.contains(
                            siblings[k - 1] as int,
                        ));
                    }
                } else {
                    let c = pre.spec_children(p)[k];
                    assert(self.contains(c as int) == pre.contains(c as int));
                }
            }
            assert(self.wf_children());
            assert forall|p: int, j: int, k: int|
                0 <= p < self.spec_len() && 0 <= j < k < self.spec_children(p).len() implies draws_before(
                self.spec_key(#[trigger] self.spec_children(p)[j] as int),
                self.spec_key(#[trigger] self.spec_children(p)[k] as int),
            ) by {
                if p == parent_id {
                    let a = if j < slot {
                        j
                    } else {
                        j - 1
                    };
                    let b = if k < slot {
                        k
                    } else {
                        k - 1
                    };
                    if j != slot {
                        assert(grown[j] == siblings[a]);
                        assert(pre.contains(siblings[a] as int));
                    }
                    if k != slot {
                        assert(grown[k] == siblings[b]);
                        assert(pre.contains(siblings[b] as int));
                    }
                    if j != slot && k != slot {
                        assert(draws_before(
                            pre.spec_key(siblings[a] as int),
                            pre.spec_key(siblings[b] as int),
                        ));
                    }
                } else {
                    let a = pre.spec_children(p)[j];
                    let b = pre.spec_children(p)[k];
                    assert(pre.contains(a as int));
                    assert(pre.contains(b as int));
                    assert(draws_before(pre.spec_key(a as int), pre.spec_key(b as int)));
                }
            }
            assert(self.wf_order());
            assert(self.contains(0) == pre.contains(0));
        }
    }

    /// `post` is `pre` with `node` put in as the last child of the node at
    /// place `parent` that has its z-index: at the next free place, one level
    /// below its parent and clipped by it, all else as it was.
    pub open spec fn inserted(pre: Self, post: Self, parent: int, node: T) -> bool {
        &&& post.spec_len() == pre.spec_len() + 1
        &&& post.contains(pre.spec_len() as int)
        &&& post.spec_base(pre.spec_len() as int).id == node.base().id
        &&& post.spec_base(pre.spec_len() as int).depth == child_depth(
            pre.spec_base(parent).depth,
        )
        &&& post.spec_base(pre.spec_len() as int).zindex == node.base().zindex
        &&& post.spec_base(pre.spec_len() as int).shape == node.base().shape
        &&& post.spec_base(pre.spec_len() as int).actual_shape@ == node.base().shape@.intersect(
            pre.spec_base(parent).actual_shape@,
        )
        &&& post.spec_base(pre.spec_len() as int).enabled == node.base().enabled
        &&& post.spec_base(pre.spec_len() as int).visible == node.base().visible
        &&& post.spec_node(pre.spec_len() as int) == node.with_base(
            post.spec_base(pre.spec_len() as int),
        )
        &&& post.spec_parent(pre.spec_len() as int) == parent
        &&& post.spec_children(pre.spec_len() as int) == Seq::<InodeId>::empty()
        &&& post.spec_children(parent) == pre.spec_children(
            parent,
        ).insert(
            pre.slot_for(
                pre.spec_children(parent),
                node.base().zindex,
                pre.spec_len() as usize,
                0,
            ),
            pre.spec_len() as usize,
        )
        &&& forall|i: int|
            #![trigger post.contains(i)]
            #![trigger post.spec_parent(i)]
            #![trigger post.spec_children(i)]
            #![trigger post.spec_node(i)]
            0 <= i < pre.spec_len() ==> {
                &&& post.contains(i) == pre.contains(i)
                &&& post.spec_node(i) == pre.spec_node(i)
                &&& post.spec_parent(i) == pre.spec_parent(i)
                &&& i != parent ==> post.spec_children(i) == pre.spec_children(i)
            }
    }

    /// Puts `node`, whose identity no node of the tree has, into the tree as
    /// a child of the node at place `parent_id`; the result is the place of
    /// the new node. A node whose logical shape has no cell in common with the
    /// actual shape of the parent is refused, and so is a place that holds no
    /// node; the tree then stays as it is.
    pub(crate) fn insert_at(&mut self, parent_id: InodeId, node: T) -> (result: Result<
        InodeId,
        TreeError,
    >)
        requires
            old(self).wf(),
            forall|i: int| #[trigger] old(self).contains(i) ==> old(self).spec_base(i).id != node.base().id,
        ensures
            final(self).wf(),
            match result {
                Ok(id) => {
                    &&& old(self).contains(parent_id as int)
                    &&& !node.base().shape@.intersect(
                        old(self).spec_base(parent_id as int).actual_shape@,
                    ).is_empty()
                    &&& id == old(self).spec_len()
                    &&& Self::inserted(*old(self), *final(self), parent_id as int, node)
                },
                Err(TreeError::InvalidId) => {
                    &&& !old(self).contains(parent_id as int)
                    &&& *final(self) == *old(self)
                },
                Err(TreeError::Bounds) => {
                    &&& old(self).contains(parent_id as int)
                    &&& node.base().shape@.intersect(
                        old(self).spec_base(parent_id as int).actual_shape@,
                    ).is_empty()
                    &&& *final(self) == *old(self)
                },
            },
    {
        if !self.is_live(parent_id) {
            return Err(TreeError::InvalidId);
        }
        let parent = self.get(parent_id);
        let parent_depth: usize = *parent.depth();
        let actual = node.shape().clip(parent.actual_shape());
        if actual.is_empty() {
            return Err(TreeError::Bounds);
        }
        let ghost pre = *self;
        let id: usize = self.nodes.len();
        let depth: usize = if parent_depth < usize::MAX {
            parent_depth + 1
        } else {
            parent_depth
        };
        let ghost given = node;
        let mut node = node;
        node.set_depth(depth);
        let ghost placed = node;
        node.set_actual_shape(&actual);
        proof {
            given.lemma_with_base(placed.base(), node.base());
        }
        self.nodes.push(Some(node));
        self.parents.push(parent_id);
        self.children.push(Vec::new());
        proof {
            assert forall|i: int|
                #![trigger self.contains(i)]
                #![trigger self.spec_parent(i)]
                #![trigger self.spec_children(i)]
                #![trigger self.spec_node(i)]
                0 <= i < pre.spec_len() implies {
                &&& self.contains(i) == pre.contains(i)
                &&& self.spec_node(i) == pre.spec_node(i)
                &&& self.spec_parent(i) == pre.spec_parent(i)
                &&& self.spec_children(i) == pre.spec_children(i)
            } by {}
            assert forall|i: int| #[trigger] self.contains(i) implies {
                &&& 0 <= i < self.spec_len()
                &&& i > 0 && i != id ==> {
                    &&& 0 <= self.spec_parent(i) < i
                    &&& self.contains(self.spec_parent(i))
                    &&& self.spec_children(self.spec_parent(i)).contains(i as usize)
                }
            } by {
                if i != id {
                    assert(pre.contains(i));
                    if i > 0 {
                        assert(self.contains(pre.spec_parent(i)) == pre.contains(pre.spec_parent(i)));
                    }
                }
            }
            assert forall|p: int, k: int|
                0 <= p < self.spec_len() && 0 <= k < self.spec_children(p).len() implies self.edge(p, #[trigger] self.spec_children(p)[k] as int) && self.spec_children(p)[k] != id by {
                assert(p < pre.spec_len());
                assert(self.contains(p) == pre.contains(p));
                let c = pre.spec_children(p)[k];
                assert(self.contains(c as int) == pre.contains(c as int));
            }
            assert(self.wf_children());
            assert forall|p: int, j: int, k: int|
                0 <= p < self.spec_len() && 0 <= j < k < self.spec_children(p).len() implies draws_before(
                self.spec_key(#[trigger] self.spec_children(p)[j] as int),
                self.spec_key(#[trigger] self.spec_children(p)[k] as int),
            ) by {
                assert(p < pre.spec_len());
                let a = pre.spec_children(p)[j];
                let b = pre.spec_children(p)[k];
                assert(pre.contains(a as int));
                assert(pre.contains(b as int));
                assert(draws_before(pre.spec_key(a as int), pre.spec_key(b as int)));
            }
            assert(self.wf_order());
            assert(self.contains(0) == pre.contains(0));
            assert(self.contains(parent_id as int) == pre.contains(parent_id as int));
            assert(self.wf_detached(id as int));
        }
        let ghost mid = *self;
        self.attach(id);
        proof {
            assert forall|i: int| #[trigger] self.contains(i) && i > 0 implies self.clipped(i) by {
                assert(self.contains(i) == mid.contains(i));
                if i != id {
                    assert(mid.contains(i) == pre.contains(i));
                    assert(pre.clipped(i));
                    assert(self.contains(pre.spec_parent(i)) == mid.contains(pre.spec_parent(i)));
                } else {
                    assert(self.contains(parent_id as int) == mid.contains(parent_id as int));
                }
            }
            assert forall|i: int|
                #![trigger self.contains(i)]
                #![trigger self.spec_parent(i)]
                #![trigger self.spec_children(i)]
                #![trigger self.spec_node(i)]
                0 <= i < pre.spec_len() implies {
                &&& self.contains(i) == pre.contains(i)
                &&& self.spec_node(i) == pre.spec_node(i)
                &&& self.spec_parent(i) == pre.spec_parent(i)
                &&& i != parent_id ==> self.spec_children(i) == pre.spec_children(i)
            } by {
                assert(self.contains(i) == mid.contains(i));
                assert(mid.contains(i) == pre.contains(i));
            }
            assert(self.contains(id as int) == mid.contains(id as int));
            assert forall|i: int, j: int|
                #[trigger] self.contains(i) && #[trigger] self.contains(j) && i != j implies self.spec_base(
                i,
            ).id != self.spec_base(j).id by {
                assert(self.contains(i) == mid.contains(i));
                assert(self.contains(j) == mid.contains(j));
                assert(self.spec_node(i) == mid.spec_node(i));
                assert(self.spec_node(j) == mid.spec_node(j));
                if i != id {
                    assert(mid.contains(i) == pre.contains(i));
                    assert(mid.spec_node(i) == pre.spec_node(i));
                }
                if j != id {
                    assert(mid.contains(j) == pre.contains(j));
                    assert(mid.spec_node(j) == pre.spec_node(j));
                }
            }
            assert forall|k: int| 0 <= k < pre.spec_children(parent_id as int).len() implies mid.spec_base(
                #[trigger] pre.spec_children(parent_id as int)[k] as int,
            ) == pre.spec_base(pre.spec_children(parent_id as int)[k] as int) by {
                assert(pre.edge(parent_id as int, pre.spec_children(parent_id as int)[k] as int));
            }
            Self::lemma_slot_for_same(
                mid,
                pre,
                pre.spec_children(parent_id as int),
                node.base().zindex,
                id,
                0,
            );
        }
        Ok(id)
    }
}

impl<T: Inodeable> Itree<T> {
    /// A sound tree stays sound where a node changes in nothing that the
    /// edges and the clipping rest on.
    pub proof fn lemma_same_wf(pre: Self, post: Self, id: int)
        requires
            pre.wf(),
            post.aligned(),
            Self::same_but(pre, post, id),
            pre.contains(id) ==> {
                &&& post.spec_base(id).id == pre.spec_base(id).id
                &&& post.spec_base(id).zindex == pre.spec_base(id).zindex
                &&& post.spec_base(id).shape == pre.spec_base(id).shape
                &&& post.spec_base(id).actual_shape == pre.spec_base(id).actual_shape
            },
        ensures
            post.wf(),
    {
        Self::lemma_same_links(pre, post, id);
        assert forall|i: int| #[trigger] post.contains(i) implies pre.contains(i) && post.spec_base(
            i,
        ).id == pre.spec_base(i).id by {
            assert(post.contains(i) == pre.contains(i));
            if i != id {
                assert(post.spec_node(i) == pre.spec_node(i));
            }
        }
        Self::lemma_same_ids(pre, post);
        assert forall|i: int| #[trigger] post.contains(i) && i > 0 implies post.clipped(i) by {
            assert(pre.contains(i));
            assert(pre.clipped(i));
            assert(post.spec_parent(i) == pre.spec_parent(i));
        }
    }

    /// Gives the node at place `id` a new actual shape.
    fn put_actual_shape(&mut self, id: InodeId, actual_shape: &U16Rect)
        requires
            old(self).aligned(),
            old(self).contains(id as int),
        ensures
            final(self).aligned(),
            Self::same_but(*old(self), *final(self), id as int),
            final(self).spec_base(id as int) == (InodeBase {
                actual_shape: *actual_shape,
                ..old(self).spec_base(id as int)
            }),
            final(self).spec_node(id as int) == old(self).spec_node(id as int).with_base(
                final(self).spec_base(id as int),
            ),
    {
        match &mut self.nodes[id] {
            Some(node) => {
                node.set_actual_shape(actual_shape);
            },
            None => {},
        }
    }

    /// Gives the node at place `id` a new logical shape.
    fn put_shape(&mut self, id: InodeId, shape: &IRect)
        requires
            old(self).aligned(),
            old(self).contains(id as int),
        ensures
            final(self).aligned(),
            Self::same_but(*old(self), *final(self), id as int),
            final(self).spec_base(id as int) == (InodeBase {
                shape: *shape,
                ..old(self).spec_base(id as int)
            }),
            final(self).spec_node(id as int) == old(self).spec_node(id as int).with_base(
                final(self).spec_base(id as int),
            ),
    {
        match &mut self.nodes[id] {
            Some(node) => {
                node.set_shape(shape);
            },
            None => {},
        }
    }

    /// Gives the node at place `id` a new z-index.
    fn put_zindex(&mut self, id: InodeId, zindex: usize)
        requires
            old(self).aligned(),
            old(self).contains(id as int),
        ensures
            final(self).aligned(),
            Self::same_but(*old(self), *final(self), id as int),
            final(self).spec_base(id as int) == (InodeBase {
                zindex,
                ..old(self).spec_base(id as int)
            }),
            final(self).spec_node(id as int) == old(self).spec_node(id as int).with_base(
                final(self).spec_base(id as int),
            ),
    {
        match &mut self.nodes[id] {
            Some(node) => {
                node.set_zindex(zindex);
            },
            None => {},
        }
    }

    /// Sets the depth of the node at place `id`. The place holds no node: the tree stays as
    /// it is, and the result is the error.
    pub(crate) fn set_depth_at(&mut self, id: InodeId, depth: usize) -> (result: Result<(), TreeError>)
        requires
            old(self).wf(),
        ensures
            final(self).wf(),
            match result {
                Ok(_) => {
                    &&& old(self).contains(id as int)
                    &&& Self::same_but(*old(self), *final(self), id as int)
                    &&& final(self).spec_base(id as int) == (InodeBase {
                        depth,
                        ..old(self).spec_base(id as int)
                    })                    &&& final(self).spec_node(id as int) == old(self).spec_node(
                        id as int,
                    ).with_base(final(self).spec_base(id as int))
                },
                Err(e) => e == TreeError::InvalidId && !old(self).contains(id as int) && *final(self)
                    == *old(self),
            },
    {
        if !self.is_live(id) {
            return Err(TreeError::InvalidId);
        }
        let ghost pre = *self;
        match &mut self.nodes[id] {
            Some(node) => {
                node.set_depth(depth);
            },
            None => {},
        }
        proof {
            Self::lemma_same_wf(pre, *self, id as int);
        }
        Ok(())
    }

    /// Enables or disables the node at place `id`. The place holds no node: the tree stays
    /// as it is, and the result is the error.
    pub(crate) fn set_enabled_at(&mut self, id: InodeId, enabled: bool) -> (result: Result<(), TreeError>)
        requires
            old(self).wf(),
        ensures
            final(self).wf(),
            match result {
                Ok(_) => {
                    &&& old(self).contains(id as int)
                    &&& Self::same_but(*old(self), *final(self), id as int)
                    &&& final(self).spec_base(id as int) == (InodeBase {
                        enabled,
                        ..old(self).spec_base(id as int)
                    })                    &&& final(self).spec_node(id as int) == old(self).spec_node(
                        id as int,
                    ).with_base(final(self).spec_base(id as int))
                },
                Err(e) => e == TreeError::InvalidId && !old(self).contains(id as int) && *final(self)
                    == *old(self),
            },
    {
        if !self.is_live(id) {
            return Err(TreeError::InvalidId);
        }
        let ghost pre = *self;
        match &mut self.nodes[id] {
            Some(node) => {
                node.set_enabled(enabled);
            },
            None => {},
        }
        proof {
            Self::lemma_same_wf(pre, *self, id as int);
        }
        Ok(())
    }

    /// Shows or hides the node at place `id`. The place holds no node: the tree stays as it
    /// is, and the result is the error.
    pub(crate) fn set_visible_at(&mut self, id: InodeId, visible: bool) -> (result: Result<(), TreeError>)
        requires
            old(self).wf(),
        ensures
            final(self).wf(),
            match result {
                Ok(_) => {
                    &&& old(self).contains(id as int)
                    &&& Self::same_but(*old(self), *final(self), id as int)
                    &&& final(self).spec_base(id as int) == (InodeBase {
                        visible,
                        ..old(self).spec_base(id as int)
                    })                    &&& final(self).spec_node(id as int) == old(self).spec_node(
                        id as int,
                    ).with_base(final(self).spec_base(id as int))
                },
                Err(e) => e == TreeError::InvalidId && !old(self).contains(id as int) && *final(self)
                    == *old(self),
            },
    {
        if !self.is_live(id) {
            return Err(TreeError::InvalidId);
        }
        let ghost pre = *self;
        match &mut self.nodes[id] {
            Some(node) => {
                node.set_visible(visible);
            },
            None => {},
        }
        proof {
            Self::lemma_same_wf(pre, *self, id as int);
        }
        Ok(())
    }

    /// `post` has the edges of `pre` and its nodes, but for the actual shapes
    /// of the nodes that were inserted after node `from`.
    pub open spec fn reclipped(pre: Self, post: Self, from: int) -> bool {
        &&& post.spec_len() == pre.spec_len()
        &&& forall|i: int|
            #![trigger post.contains(i)]
            #![trigger post.spec_parent(i)]
            #![trigger post.spec_children(i)]
            #![trigger post.spec_node(i)]
            0 <= i < pre.spec_len() ==> {
                &&& post.contains(i) == pre.contains(i)
                &&& post.spec_parent(i) == pre.spec_parent(i)
                &&& post.spec_children(i) == pre.spec_children(i)
                &&& i <= from ==> post.spec_node(i) == pre.spec_node(i)
                &&& post.spec_node(i).base() == (InodeBase {
                    actual_shape: post.spec_node(i).base().actual_shape,
                    ..pre.spec_node(i).base()
                })
                &&& post.spec_node(i) == pre.spec_node(i).with_base(post.spec_node(i).base())
            }
    }

    /// Clips every node that was inserted after node `from` by its parent
    /// again. A parent was inserted before its children, so one pass in the
    /// order of insertion reaches each node after its parent.
    fn reclip_after(&mut self, from: InodeId)
        requires
            old(self).wf_links(),
            old(self).wf_ids(),
            forall|i: int| #[trigger] old(self).contains(i) && 0 < i <= from ==> old(self).clipped(i),
        ensures
            final(self).wf(),
            Self::reclipped(*old(self), *final(self), from as int),
    {
        let ghost pre = *self;
        let n: usize = self.nodes.len();
        proof {
            assert forall|j: int| 0 <= j < pre.spec_len() implies #[trigger] pre.spec_node(j)
                == pre.spec_node(j).with_base(pre.spec_node(j).base()) by {
                pre.spec_node(j).lemma_with_base(pre.spec_node(j).base(), pre.spec_node(j).base());
            }
        }
        if from >= n {
            return ;
        }
        let mut i: usize = from + 1;
        while i < n
            invariant
                from < i <= n,
                n == self.spec_len(),
                pre.wf_links(),
                pre.wf_ids(),
                self.wf_links(),
                forall|j: int| #[trigger] self.contains(j) && 0 < j < i ==> self.clipped(j),
                Self::reclipped(pre, *self, from as int),
            decreases n - i,
        {
            if self.nodes[i].is_some() {
                let parent_id: usize = self.parents[i];
                assert(self.contains(i as int));
                let bounds: U16Rect = *self.get(parent_id).actual_shape();
                let actual: U16Rect = self.get(i).shape().clip(&bounds);
                let ghost before = *self;
                self.put_actual_shape(i, &actual);
                proof {
                    Self::lemma_same_links(before, *self, i as int);
                    assert forall|j: int| #[trigger] self.contains(j) && 0 < j < i + 1 implies self.clipped(
                        j,
                    ) by {
                        assert(before.contains(j));
                        assert(self.spec_parent(j) == before.spec_parent(j));
                        let p = before.spec_parent(j);
                        assert(self.contains(p) == before.contains(p));
                        assert(p != i);
                        assert(self.spec_node(p) == before.spec_node(p));
                        if j < i {
                            assert(self.spec_node(j) == before.spec_node(j));
                            assert(before.clipped(j));
                        }
                    }
                    assert forall|j: int|
                        #![trigger self.contains(j)]
                        #![trigger self.spec_parent(j)]
                        #![trigger self.spec_children(j)]
                        #![trigger self.spec_node(j)]
                        0 <= j < pre.spec_len() implies {
                        &&& self.contains(j) == pre.contains(j)
                        &&& self.spec_parent(j) == pre.spec_parent(j)
                        &&& self.spec_children(j) == pre.spec_children(j)
                        &&& j <= from ==> self.spec_node(j) == pre.spec_node(j)
                        &&& self.spec_node(j).base() == (InodeBase {
                            actual_shape: self.spec_node(j).base().actual_shape,
                            ..pre.spec_node(j).base()
                        })
                        &&& self.spec_node(j) == pre.spec_node(j).with_base(self.spec_node(j).base())
                    } by {
                        assert(before.contains(j) == pre.contains(j));
                        assert(self.contains(j) == before.contains(j));
                        if j != i {
                            assert(self.spec_node(j) == before.spec_node(j));
                        } else {
                            pre.spec_node(j).lemma_with_base(
                                before.spec_node(j).base(),
                                self.spec_node(j).base(),
                            );
                        }
                    }
                }
            }
            i = i + 1;
        }
        proof {
            assert forall|j: int| #[trigger] self.contains(j) implies pre.contains(j) && self.spec_base(
                j,
            ).id == pre.spec_base(j).id by {
                assert(self.contains(j) == pre.contains(j));
                assert(self.spec_node(j).base() == (InodeBase {
                    actual_shape: self.spec_node(j).base().actual_shape,
                    ..pre.spec_node(j).base()
                }));
            }
            Self::lemma_same_ids(pre, *self);
        }
    }

    /// `post` has the edges of `pre` and its nodes, but for the logical shape
    /// of the node at place `id`, which is `shape`, and for the actual shapes of that node
    /// and of the nodes that were inserted after it.
    pub open spec fn reshaped(pre: Self, post: Self, id: int, shape: IRect) -> bool {
        &&& post.spec_len() == pre.spec_len()
        &&& forall|i: int|
            #![trigger post.contains(i)]
            #![trigger post.spec_parent(i)]
            #![trigger post.spec_children(i)]
            #![trigger post.spec_node(i)]
            0 <= i < pre.spec_len() ==> {
                &&& post.contains(i) == pre.contains(i)
                &&& post.spec_parent(i) == pre.spec_parent(i)
                &&& post.spec_children(i) == pre.spec_children(i)
                &&& i < id ==> post.spec_node(i) == pre.spec_node(i)
                &&& post.spec_node(i).base() == (InodeBase {
                    shape: if i == id {
                        shape
                    } else {
                        pre.spec_node(i).base().shape
                    },
                    actual_shape: post.spec_node(i).base().actual_shape,
                    ..pre.spec_node(i).base()
                })
                &&& post.spec_node(i) == pre.spec_node(i).with_base(post.spec_node(i).base())
            }
    }

    /// Gives the node at place `id` a new logical shape, clips it by what
    /// bounds it, and clips every node below it again. A shape that has no
    /// cell in common with the bounds is refused, and so is a place that
    /// holds no node; the tree then stays as it is.
    pub(crate) fn set_shape_at(&mut self, id: InodeId, shape: &IRect) -> (result: Result<(), TreeError>)
        requires
            old(self).wf(),
        ensures
            final(self).wf(),
            match result {
                Ok(_) => {
                    &&& old(self).contains(id as int)
                    &&& !shape@.intersect(old(self).spec_bounds(id as int)).is_empty()
                    &&& final(self).spec_base(id as int).shape == *shape
                    &&& final(self).spec_base(id as int).actual_shape@ == shape@.intersect(
                        old(self).spec_bounds(id as int),
                    )
                    &&& Self::reshaped(*old(self), *final(self), id as int, *shape)
                },
                Err(TreeError::InvalidId) => !old(self).contains(id as int) && *final(self) == *old(
                    self,
                ),
                Err(TreeError::Bounds) => {
                    &&& old(self).contains(id as int)
                    &&& shape@.intersect(old(self).spec_bounds(id as int)).is_empty()
                    &&& *final(self) == *old(self)
                },
            },
    {
        if !self.is_live(id) {
            return Err(TreeError::InvalidId);
        }
        let actual: U16Rect = if id == 0 {
            shape.clip_to_plane()
        } else {
            let parent_id: usize = self.parents[id];
            shape.clip(self.get(parent_id).actual_shape())
        };
        if actual.is_empty() {
            return Err(TreeError::Bounds);
        }
        let ghost pre = *self;
        self.put_shape(id, shape);
        let ghost mid = *self;
        self.put_actual_shape(id, &actual);
        proof {
            Self::lemma_same_links(pre, mid, id as int);
            Self::lemma_same_links(mid, *self, id as int);
            assert forall|i: int| #[trigger] self.contains(i) && 0 < i <= id implies self.clipped(
                i,
            ) by {
                assert(mid.contains(i) == pre.contains(i));
                assert(self.contains(i) == mid.contains(i));
                assert(pre.clipped(i));
                let p = pre.spec_parent(i);
                assert(mid.spec_parent(i) == p);
                assert(self.spec_parent(i) == p);
                assert(mid.contains(p) == pre.contains(p));
                assert(self.contains(p) == mid.contains(p));
                assert(mid.spec_node(p) == pre.spec_node(p));
                assert(self.spec_node(p) == mid.spec_node(p));
                if i < id {
                    assert(mid.spec_node(i) == pre.spec_node(i));
                    assert(self.spec_node(i) == mid.spec_node(i));
                }
            }
        }
        let ghost set = *self;
        proof {
            assert forall|i: int| #[trigger] set.contains(i) implies pre.contains(i) && set.spec_base(
                i,
            ).id == pre.spec_base(i).id by {
                assert(mid.contains(i) == pre.contains(i));
                assert(set.contains(i) == mid.contains(i));
                if i != id {
                    assert(mid.spec_node(i) == pre.spec_node(i));
                    assert(set.spec_node(i) == mid.spec_node(i));
                }
            }
            Self::lemma_same_ids(pre, set);
        }
        self.reclip_after(id);
        proof {
            assert forall|i: int|
                #![trigger self.contains(i)]
                #![trigger self.spec_parent(i)]
                #![trigger self.spec_children(i)]
                #![trigger self.spec_node(i)]
                0 <= i < pre.spec_len() implies {
                &&& self.contains(i) == pre.contains(i)
                &&& self.spec_parent(i) == pre.spec_parent(i)
                &&& self.spec_children(i) == pre.spec_children(i)
                &&& i < id ==> self.spec_node(i) == pre.spec_node(i)
                &&& self.spec_node(i).base() == (InodeBase {
                    shape: if i == id {
                        *shape
                    } else {
                        pre.spec_node(i).base().shape
                    },
                    actual_shape: self.spec_node(i).base().actual_shape,
                    ..pre.spec_node(i).base()
                })
                &&& self.spec_node(i) == pre.spec_node(i).with_base(self.spec_node(i).base())
            } by {
                assert(mid.contains(i) == pre.contains(i));
                assert(set.contains(i) == mid.contains(i));
                assert(self.contains(i) == set.contains(i));
                if i != id {
                    assert(mid.spec_node(i) == pre.spec_node(i));
                    assert(set.spec_node(i) == mid.spec_node(i));
                } else {
                    pre.spec_node(i).lemma_with_base(mid.spec_node(i).base(), set.spec_node(i).base());
                }
            }
            assert(self.contains(id as int) == set.contains(id as int));
            assert(self.spec_node(id as int) == set.spec_node(id as int));
        }
        Ok(())
    }
}

impl<T: Inodeable> Itree<T> {
    /// Gives the root a new actual shape and clips every other node again.
    pub fn set_actual_shape(&mut self, actual_shape: &U16Rect)
        requires
            old(self).wf(),
        ensures
            final(self).wf(),
            final(self).spec_base(0).actual_shape == *actual_shape,
            Self::reclipped(*old(self), *final(self), -1),
    {
        let ghost pre = *self;
        self.put_actual_shape(0, actual_shape);
        let ghost set = *self;
        proof {
            Self::lemma_same_links(pre, set, 0);
            assert forall|i: int| #[trigger] set.contains(i) implies pre.contains(i) && set.spec_base(
                i,
            ).id == pre.spec_base(i).id by {
                assert(set.contains(i) == pre.contains(i));
                if i != 0 {
                    assert(set.spec_node(i) == pre.spec_node(i));
                }
            }
            Self::lemma_same_ids(pre, set);
        }
        self.reclip_after(0);
        proof {
            assert forall|i: int|
                #![trigger self.contains(i)]
                #![trigger self.spec_parent(i)]
                #![trigger self.spec_children(i)]
                #![trigger self.spec_node(i)]
                0 <= i < pre.spec_len() implies {
                &&& self.contains(i) == pre.contains(i)
                &&& self.spec_parent(i) == pre.spec_parent(i)
                &&& self.spec_children(i) == pre.spec_children(i)
                &&& i <= -1 ==> self.spec_node(i) == pre.spec_node(i)
                &&& self.spec_node(i).base() == (InodeBase {
                    actual_shape: self.spec_node(i).base().actual_shape,
                    ..pre.spec_node(i).base()
                })
                &&& self.spec_node(i) == pre.spec_node(i).with_base(self.spec_node(i).base())
            } by {
                assert(set.contains(i) == pre.contains(i));
                assert(self.contains(i) == set.contains(i));
                if i != 0 {
                    assert(set.spec_node(i) == pre.spec_node(i));
                }
            }
            assert(self.contains(0) == set.contains(0));
            assert(self.spec_node(0) == set.spec_node(0));
        }
    }

    /// The first place from place `from` on at which `id` stands among
    /// `siblings`.
    pub open spec fn place_of(siblings: Seq<InodeId>, id: InodeId, from: int) -> int
        decreases siblings.len() - from,
    {
        if from < 0 || from >= siblings.len() || siblings[from] == id {
            from
        } else {
            Self::place_of(siblings, id, from + 1)
        }
    }

    /// `post` has the nodes of `pre`, and its edges but for the list of the
    /// children of node `p`.
    spec fn same_but_children(pre: Self, post: Self, p: int) -> bool {
        &&& post.spec_len() == pre.spec_len()
        &&& forall|i: int|
            #![trigger post.contains(i)]
            #![trigger post.spec_parent(i)]
            #![trigger post.spec_children(i)]
            #![trigger post.spec_node(i)]
            0 <= i < pre.spec_len() ==> {
                &&& post.contains(i) == pre.contains(i)
                &&& post.spec_parent(i) == pre.spec_parent(i)
                &&& i != p ==> post.spec_children(i) == pre.spec_children(i)
                &&& post.spec_node(i) == pre.spec_node(i)
            }
    }

    /// Takes the node at place `id` out of the list of the children of its parent.
    fn detach(&mut self, id: InodeId)
        requires
            old(self).wf_links(),
            old(self).contains(id as int),
            id > 0,
        ensures
            final(self).wf_detached(id as int),
            Self::same_but_children(*old(self), *final(self), old(self).spec_parent(id as int)),
            0 <= Self::place_of(old(self).spec_children(old(self).spec_parent(id as int)), id, 0) < old(
                self,
            ).spec_children(old(self).spec_parent(id as int)).len(),
            final(self).spec_children(old(self).spec_parent(id as int)) == old(self).spec_children(
                old(self).spec_parent(id as int),
            ).remove(Self::place_of(old(self).spec_children(old(self).spec_parent(id as int)), id, 0)),
    {
        let ghost pre = *self;
        let parent_id: usize = self.parents[id];
        let ghost siblings = self.spec_children(parent_id as int);
        assert(siblings.contains(id));
        let ghost at = choose|k: int| 0 <= k < siblings.len() && siblings[k] == id;
        let mut place: usize = 0;
        let n: usize = self.children[parent_id].len();
        loop
            invariant
                n == siblings.len(),
                0 <= parent_id < self.spec_len(),
                self.aligned(),
                siblings == self.spec_children(parent_id as int),
                0 <= at < siblings.len(),
                siblings[at] == id,
                place <= at,
                Self::place_of(siblings, id, place as int) == Self::place_of(siblings, id, 0),
            ensures
                place < siblings.len(),
                siblings[place as int] == id,
                place == Self::place_of(siblings, id, 0),
            decreases siblings.len() - place,
        {
            if self.children[parent_id][place] == id {
                break ;
            }
            place = place + 1;
        }
        self.children[parent_id].remove(place);
        proof {
            let fewer = siblings.remove(place as int);
            assert(self.spec_children(parent_id as int) == fewer);
            assert forall|i: int|
                #![trigger self.contains(i)]
                #![trigger self.spec_parent(i)]
                #![trigger self.spec_children(i)]
                #![trigger self.spec_node(i)]
                0 <= i < pre.spec_len() implies {
                &&& self.contains(i) == pre.contains(i)
                &&& self.spec_parent(i) == pre.spec_parent(i)
                &&& i != parent_id ==> self.spec_children(i) == pre.spec_children(i)
                &&& self.spec_node(i) == pre.spec_node(i)
            } by {}
            assert forall|k: int| 0 <= k < fewer.len() implies fewer[k] == siblings[if k < place {
                k
            } else {
                k + 1
            }] by {}
            assert forall|k: int| 0 <= k < siblings.len() && k != place implies #[trigger] siblings[k]
                != id by {
                assert(pre.edge(parent_id as int, siblings[k] as int));
                assert(pre.edge(parent_id as int, siblings[place as int] as int));
                if k < place {
                    assert(draws_before(
                        pre.spec_key(siblings[k] as int),
                        pre.spec_key(siblings[place as int] as int),
                    ));
                } else {
                    assert(draws_before(
                        pre.spec_key(siblings[place as int] as int),
                        pre.spec_key(siblings[k] as int),
                    ));
                }
            }
            assert forall|i: int| #[trigger] self.contains(i) implies {
                &&& 0 <= i < self.spec_len()
                &&& i > 0 && i != id ==> {
                    &&& 0 <= self.spec_parent(i) < i
                    &&& self.contains(self.spec_parent(i))
                    &&& self.spec_children(self.spec_parent(i)).contains(i as usize)
                }
            } by {
                assert(pre.contains(i));
                assert(self.nodes.len() == self.nodes@.len());
                if i > 0 && i != id {
                    let p = pre.spec_parent(i);
                    assert(self.contains(p) == pre.contains(p));
                    assert(pre.spec_children(p).contains(i as usize));
                    if p == parent_id {
                        let k = choose|k: int| 0 <= k < siblings.len() && siblings[k] == i as usize;
                        assert(fewer[if k < place {
                            k
                        } else {
                            k - 1
                        }] == i as usize);
                    }
                }
            }
            assert forall|p: int, k: int|
                0 <= p < self.spec_len() && 0 <= k < self.spec_children(p).len() implies self.edge(
                p,
                #[trigger] self.spec_children(p)[k] as int,
            ) && self.spec_children(p)[k] != id by {
                assert(self.contains(p) == pre.contains(p));
                let c = if p == parent_id {
                    siblings[if k < place {
                        k
                    } else {
                        k + 1
                    }]
                } else {
                    pre.spec_children(p)[k]
                };
                assert(self.spec_children(p)[k] == c);
                assert(pre.edge(p, c as int));
                assert(self.contains(c as int) == pre.contains(c as int));
            }
            assert(self.wf_children());
            assert forall|p: int, j: int, k: int|
                0 <= p < self.spec_len() && 0 <= j < k < self.spec_children(p).len() implies draws_before(
                self.spec_key(#[trigger] self.spec_children(p)[j] as int),
                self.spec_key(#[trigger] self.spec_children(p)[k] as int),
            ) by {
                let a = if p == parent_id {
                    siblings[if j < place {
                        j
                    } else {
                        j + 1
                    }]
                } else {
                    pre.spec_children(p)[j]
                };
                let b = if p == parent_id {
                    siblings[if k < place {
                        k
                    } else {
                        k + 1
                    }]
                } else {
                    pre.spec_children(p)[k]
                };
                assert(self.spec_children(p)[j] == a);
                assert(self.spec_children(p)[k] == b);
                assert(pre.edge(p, a as int));
                assert(pre.edge(p, b as int));
                assert(draws_before(pre.spec_key(a as int), pre.spec_key(b as int)));
                assert(self.spec_node(a as int) == pre.spec_node(a as int));
                assert(self.spec_node(b as int) == pre.spec_node(b as int));
            }
            assert(self.wf_order());
            assert(self.contains(0) == pre.contains(0));
            assert(self.contains(id as int) == pre.contains(id as int));
            assert(self.contains(parent_id as int) == pre.contains(parent_id as int));
        }
    }

    /// A tree in which a node waits to be put among the children of its
    /// parent stays so where that node changes in nothing but what it holds
    /// besides its identity.
    proof fn lemma_same_detached(pre: Self, post: Self, id: int)
        requires
            pre.wf_detached(id),
            post.aligned(),
            Self::same_but(pre, post, id),
            post.spec_base(id).id == pre.spec_base(id).id,
        ensures
            post.wf_detached(id),
    {
        assert forall|i: int| #[trigger] post.contains(i) implies {
            &&& 0 <= i < post.spec_len()
            &&& i > 0 && i != id ==> {
                &&& 0 <= post.spec_parent(i) < i
                &&& post.contains(post.spec_parent(i))
                &&& post.spec_children(post.spec_parent(i)).contains(i as usize)
            }
        } by {
            assert(pre.contains(i));
            if i > 0 {
                assert(post.contains(pre.spec_parent(i)) == pre.contains(pre.spec_parent(i)));
            }
        }
        assert forall|p: int, k: int|
            0 <= p < post.spec_len() && 0 <= k < post.spec_children(p).len() implies post.edge(
            p,
            #[trigger] post.spec_children(p)[k] as int,
        ) && post.spec_children(p)[k] != id by {
            assert(post.contains(p) == pre.contains(p));
            let c = pre.spec_children(p)[k];
            assert(pre.edge(p, c as int));
            assert(post.contains(c as int) == pre.contains(c as int));
        }
        assert(post.wf_children());
        assert forall|p: int, j: int, k: int|
            0 <= p < post.spec_len() && 0 <= j < k < post.spec_children(p).len() implies draws_before(
            post.spec_key(#[trigger] post.spec_children(p)[j] as int),
            post.spec_key(#[trigger] post.spec_children(p)[k] as int),
        ) by {
            assert(post.contains(p) == pre.contains(p));
            let a = pre.spec_children(p)[j];
            let b = pre.spec_children(p)[k];
            assert(pre.edge(p, a as int));
            assert(pre.edge(p, b as int));
            assert(post.spec_node(a as int) == pre.spec_node(a as int));
            assert(post.spec_node(b as int) == pre.spec_node(b as int));
            assert(draws_before(pre.spec_key(a as int), pre.spec_key(b as int)));
        }
        assert(post.wf_order());
        assert(post.contains(0) == pre.contains(0));
        assert(post.contains(id) == pre.contains(id));
        assert(post.contains(pre.spec_parent(id)) == pre.contains(pre.spec_parent(id)));
        assert(post.spec_parent(id) == pre.spec_parent(id));
    }

    /// `post` is `pre` with the z-index of the node at place `id` set to
    /// `zindex` and the node moved to its new place among the children of its
    /// parent, all else as it was.
    pub open spec fn restacked(pre: Self, post: Self, id: int, zindex: usize) -> bool {
        &&& post.spec_len() == pre.spec_len()
        &&& post.spec_base(id) == (InodeBase {
            zindex,
            ..pre.spec_base(id)
        })
        &&& post.spec_node(id) == pre.spec_node(
            id,
        ).with_base(post.spec_base(id))
        &&& forall|i: int|
            #![trigger post.contains(i)]
            #![trigger post.spec_parent(i)]
            #![trigger post.spec_children(i)]
            #![trigger post.spec_node(i)]
            0 <= i < pre.spec_len() ==> {
                &&& post.contains(i) == pre.contains(i)
                &&& post.spec_parent(i) == pre.spec_parent(i)
                &&& (id == 0 || i != pre.spec_parent(id))
                    ==> post.spec_children(i) == pre.spec_children(i)
                &&& i != id ==> post.spec_node(i) == pre.spec_node(i)
            }
        &&& id > 0 ==> post.spec_children(pre.spec_parent(id)) == ({
            let siblings = pre.spec_children(pre.spec_parent(id));
            let others = siblings.remove(Self::place_of(siblings, id as usize, 0));
            others.insert(pre.slot_for(others, zindex, id as usize, 0), id as usize)
        })
    }

    /// Gives the node at place `id` a new z-index and moves it to its new place among
    /// the children of its parent. The place holds no node: the tree stays as
    /// it is, and the result is the error.
    pub(crate) fn set_zindex_at(&mut self, id: InodeId, zindex: usize) -> (result: Result<(), TreeError>)
        requires
            old(self).wf(),
        ensures
            final(self).wf(),
            match result {
                Ok(_) => {
                    &&& old(self).contains(id as int)
                    &&& Self::restacked(*old(self), *final(self), id as int, zindex)
                },
                Err(e) => e == TreeError::InvalidId && !old(self).contains(id as int) && *final(self)
                    == *old(self),
            },
    {
        if !self.is_live(id) {
            return Err(TreeError::InvalidId);
        }
        let ghost pre = *self;
        if id == 0 {
            self.put_zindex(0, zindex);
            proof {
                let post = *self;
                assert forall|i: int| #[trigger] post.contains(i) implies {
                    &&& 0 <= i < post.spec_len()
                    &&& i > 0 ==> {
                        &&& 0 <= post.spec_parent(i) < i
                        &&& post.contains(post.spec_parent(i))
                        &&& post.spec_children(post.spec_parent(i)).contains(i as usize)
                    }
                } by {
                    assert(pre.contains(i));
                    if i > 0 {
                        assert(post.contains(pre.spec_parent(i)) == pre.contains(pre.spec_parent(i)));
                    }
                }
                assert(post.wf_parents());
                assert forall|p: int, k: int|
                    0 <= p < post.spec_len() && 0 <= k < post.spec_children(p).len() implies post.edge(
                    p,
                    #[trigger] post.spec_children(p)[k] as int,
                ) by {
                    assert(post.contains(p) == pre.contains(p));
                    let c = pre.spec_children(p)[k];
                    assert(pre.edge(p, c as int));
                    assert(post.contains(c as int) == pre.contains(c as int));
                }
                assert(post.wf_children());
                assert forall|p: int, j: int, k: int|
                    0 <= p < post.spec_len() && 0 <= j < k < post.spec_children(p).len() implies draws_before(
                    post.spec_key(#[trigger] post.spec_children(p)[j] as int),
                    post.spec_key(#[trigger] post.spec_children(p)[k] as int),
                ) by {
                    assert(post.contains(p) == pre.contains(p));
                    let a = pre.spec_children(p)[j];
                    let b = pre.spec_children(p)[k];
                    assert(pre.edge(p, a as int));
                    assert(pre.edge(p, b as int));
                    assert(post.spec_node(a as int) == pre.spec_node(a as int));
                    assert(post.spec_node(b as int) == pre.spec_node(b as int));
                    assert(draws_before(pre.spec_key(a as int), pre.spec_key(b as int)));
                }
                assert(post.wf_order());
                assert(post.contains(0) == pre.contains(0));
                assert forall|i: int| #[trigger] post.contains(i) implies pre.contains(i)
                    && post.spec_base(i).id == pre.spec_base(i).id by {
                    assert(post.contains(i) == pre.contains(i));
                    if i != 0 {
                        assert(post.spec_node(i) == pre.spec_node(i));
                    }
                }
                Self::lemma_same_ids(pre, post);
                assert forall|i: int| #[trigger] post.contains(i) && i > 0 implies post.clipped(i) by {
                    assert(pre.contains(i));
                    assert(pre.clipped(i));
                    assert(post.spec_parent(i) == pre.spec_parent(i));
                    assert(post.contains(pre.spec_parent(i)) == pre.contains(pre.spec_parent(i)));
                }
            }
            return Ok(());
        }
        let ghost parent_id = pre.spec_parent(id as int);
        self.detach(id);
        let ghost cut = *self;
        self.put_zindex(id, zindex);
        let ghost set = *self;
        proof {
            Self::lemma_same_detached(cut, set, id as int);
        }
        self.attach(id);
        proof {
            let post = *self;
            assert forall|i: int|
                #![trigger post.contains(i)]
                #![trigger post.spec_parent(i)]
                #![trigger post.spec_children(i)]
                #![trigger post.spec_node(i)]
                0 <= i < pre.spec_len() implies {
                &&& post.contains(i) == pre.contains(i)
                &&& post.spec_parent(i) == pre.spec_parent(i)
                &&& i != parent_id ==> post.spec_children(i) == pre.spec_children(i)
                &&& i != id ==> post.spec_node(i) == pre.spec_node(i)
            } by {
                assert(cut.contains(i) == pre.contains(i));
                assert(set.contains(i) == cut.contains(i));
                assert(post.contains(i) == set.contains(i));
            }
            assert(post.contains(id as int) == set.contains(id as int));
            assert(set.spec_parent(id as int) == cut.spec_parent(id as int));
            assert(cut.spec_parent(id as int) == pre.spec_parent(id as int));
            assert(set.contains(parent_id) == cut.contains(parent_id));
            let others = cut.spec_children(parent_id);
            assert(set.spec_children(parent_id) == others);
            assert forall|k: int| 0 <= k < others.len() implies set.spec_base(
                #[trigger] others[k] as int,
            ) == pre.spec_base(others[k] as int) by {
                assert(cut.edge(parent_id, others[k] as int));
                assert(set.contains(others[k] as int) == cut.contains(others[k] as int));
                assert(cut.spec_node(others[k] as int) == pre.spec_node(others[k] as int));
            }
            Self::lemma_slot_for_same(set, pre, others, zindex, id, 0);
            assert forall|i: int| #[trigger] post.contains(i) implies pre.contains(i) && post.spec_base(
                i,
            ).id == pre.spec_base(i).id by {
                assert(cut.contains(i) == pre.contains(i));
                assert(set.contains(i) == cut.contains(i));
                assert(post.contains(i) == set.contains(i));
                assert(cut.spec_node(i) == pre.spec_node(i));
                assert(post.spec_node(i) == set.spec_node(i));
                if i != id {
                    assert(set.spec_node(i) == cut.spec_node(i));
                }
            }
            Self::lemma_same_ids(pre, post);
            assert forall|i: int| #[trigger] post.contains(i) && i > 0 implies post.clipped(i) by {
                assert(pre.contains(i));
                assert(pre.clipped(i));
                let p = pre.spec_parent(i);
                assert(post.spec_parent(i) == p);
                assert(post.contains(p) == pre.contains(p));
                assert(cut.contains(p) == pre.contains(p));
                assert(set.contains(p) == cut.contains(p));
                assert(post.contains(p) == set.contains(p));
                assert(cut.contains(i) == pre.contains(i));
                assert(set.contains(i) == cut.contains(i));
            }
        }
        Ok(())
    }

    /// The nodes of the tree below the node at place `id` in the order of drawing: the
    /// node, then, for each of its children in their order, the child with
    /// all that is below it.
    pub open spec fn preorder(&self, id: int) -> Seq<InodeId>
        decreases self.spec_len() - id, self.spec_children(id).len() + 1,
    {
        if 0 <= id < self.spec_len() {
            seq![id as usize] + self.preorder_from(id, 0)
        } else {
            Seq::empty()
        }
    }

    /// The nodes below the children of the node at place `id` from child `k` on, in the
    /// order of drawing.
    pub open spec fn preorder_from(&self, id: int, k: int) -> Seq<InodeId>
        decreases self.spec_len() - id, self.spec_children(id).len() - k,
    {
        if 0 <= id < self.spec_len() && 0 <= k < self.spec_children(id).len() {
            let c = self.spec_children(id)[k] as int;
            if id < c < self.spec_len() {
                self.preorder(c) + self.preorder_from(id, k + 1)
            } else {
                self.preorder_from(id, k + 1)
            }
        } else {
            Seq::empty()
        }
    }

    /// Adds the node at place `id` and all that is below it to `order`.
    fn collect(&self, id: InodeId, order: &mut Vec<InodeId>)
        requires
            self.wf_links(),
            self.contains(id as int),
        ensures
            final(order)@ == old(order)@ + self.preorder(id as int),
        decreases self.spec_len() - id,
    {
        let ghost before = order@;
        order.push(id);
        let n: usize = self.children[id].len();
        let mut k: usize = 0;
        assert(order@ + self.preorder_from(id as int, 0) =~= before + self.preorder(id as int));
        while k < n
            invariant
                self.wf_links(),
                self.contains(id as int),
                0 <= id < self.spec_len(),
                n == self.spec_children(id as int).len(),
                k <= n,
                order@ + self.preorder_from(id as int, k as int) == before + self.preorder(id as int),
            decreases n - k,
        {
            let c: usize = self.children[id][k];
            assert(self.edge(id as int, self.spec_children(id as int)[k as int] as int));
            let ghost so_far = order@;
            self.collect(c, order);
            assert(order@ + self.preorder_from(id as int, k + 1) =~= so_far + self.preorder_from(
                id as int,
                k as int,
            ));
            k = k + 1;
        }
        assert(order@ + Seq::<InodeId>::empty() =~= order@);
    }

    /// The identities of the nodes in the order in which they are drawn: a
    /// node before its children, and the children of a node by ascending
    /// z-index, those of one z-index in the order of their insertion.
    pub(crate) fn draw_places(&self) -> (order: Vec<InodeId>)
        requires
            self.wf(),
        ensures
            order@ == self.preorder(0),
    {
        let mut order: Vec<InodeId> = Vec::new();
        self.collect(0, &mut order);
        assert(Seq::<InodeId>::empty() + self.preorder(0) =~= self.preorder(0));
        order
    }
}

impl<T: Inodeable> Itree<T> {
    /// The node at place `i` is the node at place `id` or stands below it.
    pub open spec fn below(&self, i: int, id: int) -> bool
        decreases i,
    {
        if i == id {
            true
        } else if i <= id || i <= 0 {
            false
        } else if 0 <= self.spec_parent(i) < i {
            self.below(self.spec_parent(i), id)
        } else {
            false
        }
    }

    /// `post` is `pre` without the node at place `id` and all that stood below it: the
    /// other nodes and their edges are as they were, but that the parent of
    /// the node at place `id` has lost that child.
    pub open spec fn pruned(pre: Self, post: Self, id: int) -> bool {
        &&& post.spec_len() == pre.spec_len()
        &&& forall|i: int|
            #![trigger post.contains(i)]
            #![trigger post.spec_parent(i)]
            #![trigger post.spec_children(i)]
            #![trigger post.spec_node(i)]
            0 <= i < pre.spec_len() ==> {
                &&& post.contains(i) == (pre.contains(i) && !pre.below(i, id))
                &&& post.spec_parent(i) == pre.spec_parent(i)
                &&& post.spec_children(i) == if pre.below(i, id) {
                    Seq::<InodeId>::empty()
                } else if i == pre.spec_parent(id) {
                    pre.spec_children(i).remove(Self::place_of(pre.spec_children(i), id as usize, 0))
                } else {
                    pre.spec_children(i)
                }
                &&& post.contains(i) ==> post.spec_node(i) == pre.spec_node(i)
            }
    }

    /// Takes the node at place `id` out of the tree, with all that stands below it, and
    /// hands the node back. The root is never taken out: for it, and for a
    /// node that the tree does not hold, the tree stays as it is and the
    /// result is the error.
    pub(crate) fn remove_at(&mut self, id: InodeId) -> (result: Result<T, TreeError>)
        requires
            old(self).wf(),
        ensures
            final(self).wf(),
            match result {
                Ok(node) => {
                    &&& id > 0
                    &&& old(self).contains(id as int)
                    &&& node == old(self).spec_node(id as int)
                    &&& Self::pruned(*old(self), *final(self), id as int)
                },
                Err(e) => {
                    &&& e == TreeError::InvalidId
                    &&& id == 0 || !old(self).contains(id as int)
                    &&& *final(self) == *old(self)
                },
            },
    {
        if id == 0 || !self.is_live(id) {
            return Err(TreeError::InvalidId);
        }
        let ghost pre = *self;
        let ghost parent_id = pre.spec_parent(id as int);
        self.detach(id);
        let ghost cut = *self;
        let n: usize = self.nodes.len();
        let mut gone: Vec<bool> = Vec::new();
        while gone.len() < n
            invariant
                gone@.len() <= n,
                forall|j: int| 0 <= j < gone@.len() ==> !gone@[j],
            decreases n - gone@.len(),
        {
            gone.push(false);
        }
        let taken: Option<T> = self.nodes[id].take();
        self.children[id].clear();
        gone[id] = true;
        let mut i: usize = id + 1;
        while i < n
            invariant
                0 < id < i <= n,
                n == cut.spec_len(),
                n == self.spec_len(),
                gone@.len() == n,
                self.aligned(),
                cut.wf_detached(id as int),
                forall|j: int| 0 <= j < n ==> #[trigger] gone@[j] == (j < i && cut.below(j, id as int)),
                forall|j: int|
                    #![trigger self.contains(j)]
                    #![trigger self.spec_parent(j)]
                    #![trigger self.spec_children(j)]
                    #![trigger self.spec_node(j)]
                    0 <= j < n ==> {
                        &&& self.contains(j) == (cut.contains(j) && !(j < i && cut.below(j, id as int)))
                        &&& self.spec_parent(j) == cut.spec_parent(j)
                        &&& self.spec_children(j) == if j < i && cut.below(j, id as int) {
                            Seq::<InodeId>::empty()
                        } else {
                            cut.spec_children(j)
                        }
                        &&& self.contains(j) ==> self.spec_node(j) == cut.spec_node(j)
                    },
            decreases n - i,
        {
            let parent: usize = self.parents[i];
            let ghost before = *self;
            let ghost marks = gone@;
            assert(self.spec_parent(i as int) == cut.spec_parent(i as int));
            assert(cut.below(i as int, id as int) == (parent < i && cut.below(
                parent as int,
                id as int,
            )));
            if parent < i && gone[parent] {
                assert(marks[parent as int]);
                gone[i] = true;
                self.nodes[i] = None;
                self.children[i].clear();
            } else if parent < i {
                assert(!marks[parent as int]);
            }
            proof {
                assert forall|j: int| 0 <= j < n implies #[trigger] gone@[j] == (j < i + 1 && cut.below(
                    j,
                    id as int,
                )) by {
                    if j != i {
                        assert(gone@[j] == marks[j]);
                    }
                }
                assert forall|j: int|
                    #![trigger self.contains(j)]
                    #![trigger self.spec_parent(j)]
                    #![trigger self.spec_children(j)]
                    #![trigger self.spec_node(j)]
                    0 <= j < n implies {
                    &&& self.contains(j) == (cut.contains(j) && !(j < i + 1 && cut.below(j, id as int)))
                    &&& self.spec_parent(j) == cut.spec_parent(j)
                    &&& self.spec_children(j) == if j < i + 1 && cut.below(j, id as int) {
                        Seq::<InodeId>::empty()
                    } else {
                        cut.spec_children(j)
                    }
                    &&& self.contains(j) ==> self.spec_node(j) == cut.spec_node(j)
                } by {
                    assert(before.spec_parent(j) == cut.spec_parent(j));
                    if j != i {
                        assert(self.contains(j) == before.contains(j));
                        assert(self.spec_children(j) == before.spec_children(j));
                        assert(self.spec_node(j) == before.spec_node(j));
                    } else {
                        assert(before.contains(j) == cut.contains(j));
                        assert(before.spec_children(j) == cut.spec_children(j));
                    }
                }
            }
            i = i + 1;
        }
        proof {
            let post = *self;
            assert forall|j: int| #[trigger] post.contains(j) implies {
                &&& 0 <= j < post.spec_len()
                &&& j > 0 ==> {
                    &&& 0 <= post.spec_parent(j) < j
                    &&& post.contains(post.spec_parent(j))
                    &&& post.spec_children(post.spec_parent(j)).contains(j as usize)
                }
            } by {
                assert(cut.contains(j));
                assert(post.spec_node(j) == cut.spec_node(j));
                if j > 0 {
                    let p = cut.spec_parent(j);
                    assert(post.spec_parent(j) == p);
                    assert(!cut.below(p, id as int));
                    assert(post.contains(p) == (cut.contains(p) && !cut.below(p, id as int)));
                    assert(post.spec_children(p) == cut.spec_children(p));
                }
            }
            assert(post.wf_parents());
            assert forall|p: int, k: int|
                0 <= p < post.spec_len() && 0 <= k < post.spec_children(p).len() implies post.edge(
                p,
                #[trigger] post.spec_children(p)[k] as int,
            ) by {
                assert(!cut.below(p, id as int));
                assert(post.spec_children(p) == cut.spec_children(p));
                let c = cut.spec_children(p)[k];
                assert(cut.edge(p, c as int));
                assert(c != id);
                assert(!cut.below(c as int, id as int));
                assert(post.contains(p) == (cut.contains(p) && !cut.below(p, id as int)));
                assert(post.contains(c as int) == (cut.contains(c as int) && !cut.below(
                    c as int,
                    id as int,
                )));
                assert(post.spec_parent(c as int) == cut.spec_parent(c as int));
            }
            assert(post.wf_children());
            assert forall|p: int, j: int, k: int|
                0 <= p < post.spec_len() && 0 <= j < k < post.spec_children(p).len() implies draws_before(
                post.spec_key(#[trigger] post.spec_children(p)[j] as int),
                post.spec_key(#[trigger] post.spec_children(p)[k] as int),
            ) by {
                assert(post.edge(p, post.spec_children(p)[j] as int));
                assert(post.edge(p, post.spec_children(p)[k] as int));
                assert(!cut.below(p, id as int));
                assert(post.spec_children(p) == cut.spec_children(p));
                let a = cut.spec_children(p)[j];
                let b = cut.spec_children(p)[k];
                assert(post.spec_node(a as int) == cut.spec_node(a as int));
                assert(post.spec_node(b as int) == cut.spec_node(b as int));
                assert(draws_before(cut.spec_key(a as int), cut.spec_key(b as int)));
            }
            assert(post.wf_order());
            assert(post.contains(0) == (cut.contains(0) && !cut.below(0, id as int)));
            assert forall|j: int| #[trigger] post.contains(j) && j > 0 implies post.clipped(j) by {
                assert(cut.contains(j));
                assert(pre.contains(j) == cut.contains(j));
                assert(pre.clipped(j));
                let p = pre.spec_parent(j);
                assert(cut.spec_parent(j) == p);
                assert(post.spec_parent(j) == p);
                assert(post.contains(p));
                assert(post.spec_node(p) == cut.spec_node(p));
                assert(cut.spec_node(p) == pre.spec_node(p));
                assert(post.spec_node(j) == cut.spec_node(j));
                assert(cut.spec_node(j) == pre.spec_node(j));
            }
            assert forall|j: int| #[trigger] post.contains(j) implies pre.contains(j) && post.spec_base(
                j,
            ).id == pre.spec_base(j).id by {
                assert(cut.contains(j));
                assert(cut.contains(j) == pre.contains(j));
                assert(post.spec_node(j) == cut.spec_node(j));
                assert(cut.spec_node(j) == pre.spec_node(j));
            }
            Self::lemma_same_ids(pre, post);
            assert forall|j: int| 0 <= j < n implies cut.below(j, id as int) == pre.below(
                j,
                id as int,
            ) by {
                Self::lemma_below_same(pre, cut, j, id as int);
            }
            assert forall|j: int|
                #![trigger post.contains(j)]
                #![trigger post.spec_parent(j)]
                #![trigger post.spec_children(j)]
                #![trigger post.spec_node(j)]
                0 <= j < pre.spec_len() implies {
                &&& post.contains(j) == (pre.contains(j) && !pre.below(j, id as int))
                &&& post.spec_parent(j) == pre.spec_parent(j)
                &&& post.spec_children(j) == if pre.below(j, id as int) {
                    Seq::<InodeId>::empty()
                } else if j == pre.spec_parent(id as int) {
                    pre.spec_children(j).remove(Self::place_of(pre.spec_children(j), id, 0))
                } else {
                    pre.spec_children(j)
                }
                &&& post.contains(j) ==> post.spec_node(j) == pre.spec_node(j)
            } by {
                assert(cut.contains(j) == pre.contains(j));
                assert(cut.below(j, id as int) == pre.below(j, id as int));
                assert(post.contains(j) == (cut.contains(j) && !cut.below(j, id as int)));
                assert(cut.spec_node(j) == pre.spec_node(j));
            }
        }
        Ok(taken.unwrap())
    }

    /// What stands below a node rests on the parent edges alone.
    proof fn lemma_below_same(a: Self, b: Self, i: int, id: int)
        requires
            a.spec_len() == b.spec_len(),
            forall|j: int| 0 <= j < a.spec_len() ==> #[trigger] a.spec_parent(j) == b.spec_parent(j),
            i < a.spec_len(),
        ensures
            a.below(i, id) == b.below(i, id),
        decreases i,
    {
        if i != id && i > id && i > 0 {
            assert(a.spec_parent(i) == b.spec_parent(i));
            if 0 <= a.spec_parent(i) < i {
                Self::lemma_below_same(a, b, a.spec_parent(i), id);
            }
        }
    }
}

impl<T: Inodeable> Itree<T> {
    /// The places of a tree can be counted.
    pub proof fn lemma_len(self)
        ensures
            self.spec_len() <= usize::MAX,
    {
        assert(self.nodes.len() == self.nodes@.len());
    }

    /// In a sound tree the actual shape of every node but the root is its
    /// logical shape clipped by the actual shape of its parent.
    pub proof fn lemma_clipped(self, id: int)
        requires
            self.wf(),
            self.contains(id),
            id > 0,
        ensures
            self.contains(self.spec_parent(id)),
            self.spec_base(id).actual_shape@ == self.spec_base(id).shape@.intersect(
                self.spec_base(self.spec_parent(id)).actual_shape@,
            ),
    {
        assert(self.clipped(id));
    }
}

impl<T: Inodeable> Itree<T> {
    /// The first place from place `from` on that holds a node of identity
    /// `id`, or the number of places where there is none.
    pub open spec fn find_from(&self, id: InodeId, from: int) -> int
        decreases self.spec_len() - from,
    {
        if from < 0 || from >= self.spec_len() {
            self.spec_len() as int
        } else if self.contains(from) && self.spec_base(from).id == id {
            from
        } else {
            self.find_from(id, from + 1)
        }
    }

    /// The place of the node of identity `id`.
    pub open spec fn slot(&self, id: InodeId) -> int {
        self.find_from(id, 0)
    }

    /// The tree holds a node of identity `id`.
    pub open spec fn holds(&self, id: InodeId) -> bool {
        self.slot(id) < self.spec_len()
    }

    /// The identities of the nodes at the given places.
    pub open spec fn ids_of(&self, places: Seq<InodeId>) -> Seq<InodeId> {
        Seq::new(places.len(), |k: int| self.spec_base(places[k] as int).id)
    }

    /// `post` is `pre` but that the node at place `place` holds `base`.
    pub open spec fn updated(pre: Self, post: Self, place: int, base: InodeBase) -> bool {
        &&& Self::same_but(pre, post, place)
        &&& post.spec_base(place) == base
        &&& post.spec_node(place) == pre.spec_node(place).with_base(base)
    }

    /// Where the search for an identity ends: at a place that holds a node of
    /// that identity, or past the last place when no node from `from` on has
    /// it.
    pub proof fn lemma_find_from(self, id: InodeId, from: int)
        requires
            0 <= from <= self.spec_len(),
        ensures
            from <= self.find_from(id, from) <= self.spec_len(),
            self.find_from(id, from) < self.spec_len() ==> self.contains(self.find_from(id, from))
                && self.spec_base(self.find_from(id, from)).id == id,
            forall|i: int|
                from <= i < self.find_from(id, from) ==> !(#[trigger] self.contains(i)
                    && self.spec_base(i).id == id),
        decreases self.spec_len() - from,
    {
        if from < self.spec_len() && !(self.contains(from) && self.spec_base(from).id == id) {
            self.lemma_find_from(id, from + 1);
        }
    }

    /// The tree holds a node of an identity exactly if a node at some place
    /// has that identity.
    pub proof fn lemma_holds(self, id: InodeId)
        ensures
            self.holds(id) <==> exists|i: int| self.contains(i) && self.spec_base(i).id == id,
    {
        self.lemma_find_from(id, 0);
        if self.holds(id) {
            assert(self.contains(self.slot(id)) && self.spec_base(self.slot(id)).id == id);
        }
        if exists|i: int| self.contains(i) && self.spec_base(i).id == id {
            let i = choose|i: int| self.contains(i) && self.spec_base(i).id == id;
            assert(self.contains(i));
        }
    }

    /// In a sound tree a node is found at its place by its identity.
    pub proof fn lemma_slot(self, place: int)
        requires
            self.wf(),
            self.contains(place),
        ensures
            self.holds(self.spec_base(place).id),
            self.slot(self.spec_base(place).id) == place,
    {
        self.lemma_find_from(self.spec_base(place).id, 0);
        let found = self.slot(self.spec_base(place).id);
        if found > place {
            assert(self.contains(place));
        } else if found < place {
            assert(self.contains(found));
        }
    }

    /// The place of the node of identity `id`, if the tree holds one.
    fn find(&self, id: InodeId) -> (place: Option<usize>)
        ensures
            match place {
                Some(p) => {
                    &&& self.holds(id)
                    &&& p == self.slot(id)
                    &&& self.contains(p as int)
                    &&& self.spec_base(p as int).id == id
                },
                None => {
                    &&& !self.holds(id)
                    &&& forall|i: int| #[trigger] self.contains(i) ==> self.spec_base(i).id != id
                },
            },
    {
        let n: usize = self.nodes.len();
        let mut i: usize = 0;
        while i < n
            invariant
                i <= n,
                n == self.spec_len(),
                self.find_from(id, i as int) == self.find_from(id, 0),
                forall|j: int| 0 <= j < i ==> !(#[trigger] self.contains(j) && self.spec_base(j).id == id),
            decreases n - i,
        {
            match &self.nodes[i] {
                Some(node) => {
                    if node.id() == id {
                        return Some(i);
                    }
                },
                None => {},
            }
            i = i + 1;
        }
        None
    }

    /// The node at place `place`, to be changed in what it holds besides its
    /// base. The tree is sound again when the node holds the base that it
    /// held.
    pub(crate) fn node_mut_at(&mut self, place: usize) -> (node: &mut T)
        requires
            old(self).aligned(),
            old(self).contains(place as int),
        ensures
            *node == old(self).spec_node(place as int),
            final(self).aligned(),
            Self::same_but(*old(self), *final(self), place as int),
            final(self).spec_node(place as int) == *final(node),
    {
        self.nodes[place].as_mut().unwrap()
    }

    /// The identity of the root.
    pub fn root_id(&self) -> (id: InodeId)
        requires
            self.wf(),
        ensures
            id == self.spec_base(0).id,
    {
        self.get(0).id()
    }

    pub fn contains_id(&self, id: InodeId) -> (b: bool)
        ensures
            b == self.holds(id),
    {
        self.find(id).is_some()
    }

    /// The node of identity `id`, if the tree holds it.
    pub fn node(&self, id: InodeId) -> (node: Option<&T>)
        ensures
            match node {
                Some(n) => self.holds(id) && *n == self.spec_node(self.slot(id)),
                None => !self.holds(id),
            },
    {
        match self.find(id) {
            Some(place) => self.node_at(place),
            None => None,
        }
    }

    /// The identity of the parent of node `id`, if the tree holds the node
    /// and it is not the root.
    pub fn parent_id(&self, id: InodeId) -> (parent: Option<InodeId>)
        requires
            self.wf(),
        ensures
            parent == if self.holds(id) && self.slot(id) > 0 {
                Some(self.spec_base(self.spec_parent(self.slot(id))).id)
            } else {
                None
            },
    {
        match self.find(id) {
            Some(place) => {
                if place > 0 {
                    let parent: usize = self.parents[place];
                    Some(self.get(parent).id())
                } else {
                    None
                }
            },
            None => None,
        }
    }

    /// The identities of the nodes at the given places.
    fn ids_at(&self, places: &Vec<InodeId>) -> (ids: Vec<InodeId>)
        requires
            forall|k: int| 0 <= k < places@.len() ==> self.contains(#[trigger] places@[k] as int),
        ensures
            ids@ == self.ids_of(places@),
    {
        let mut ids: Vec<InodeId> = Vec::new();
        let mut k: usize = 0;
        while k < places.len()
            invariant
                k <= places@.len(),
                forall|k: int| 0 <= k < places@.len() ==> self.contains(#[trigger] places@[k] as int),
                ids@.len() == k,
                forall|j: int| 0 <= j < k ==> ids@[j] == self.spec_base(places@[j] as int).id,
            decreases places@.len() - k,
        {
            assert(self.contains(places@[k as int] as int));
            ids.push(self.get(places[k]).id());
            k = k + 1;
        }
        assert(ids@ =~= self.ids_of(places@));
        ids
    }

    /// The identities of the children of node `id`, in the order of drawing,
    /// if the tree holds the node.
    pub fn children_ids(&self, id: InodeId) -> (children: Option<Vec<InodeId>>)
        requires
            self.wf(),
        ensures
            match children {
                Some(c) => self.holds(id) && c@ == self.ids_of(self.spec_children(self.slot(id))),
                None => !self.holds(id),
            },
    {
        match self.find(id) {
            Some(place) => {
                assert forall|k: int| 0 <= k < self.spec_children(place as int).len() implies self.contains(
                    #[trigger] self.spec_children(place as int)[k] as int,
                ) by {
                    assert(self.edge(place as int, self.spec_children(place as int)[k] as int));
                }
                Some(self.ids_at(&self.children[place]))
            },
            None => None,
        }
    }

    /// Puts `node` into the tree as a child of node `parent_id`, clipped by
    /// it, one level below it, and among its children behind those of its
    /// z-index; the node keeps its identity, which is the result. Refused
    /// are a parent that the tree does not hold, a node whose identity the
    /// tree holds already, and a node whose logical shape has no cell in
    /// common with the actual shape of the parent; the tree then stays as it
    /// is.
    pub fn insert(&mut self, parent_id: InodeId, node: T) -> (result: Result<InodeId, TreeError>)
        requires
            old(self).wf(),
        ensures
            final(self).wf(),
            match result {
                Ok(id) => {
                    &&& id == node.base().id
                    &&& old(self).holds(parent_id)
                    &&& !old(self).holds(id)
                    &&& !node.base().shape@.intersect(
                        old(self).spec_base(old(self).slot(parent_id)).actual_shape@,
                    ).is_empty()
                    &&& Self::inserted(*old(self), *final(self), old(self).slot(parent_id), node)
                },
                Err(TreeError::InvalidId) => {
                    &&& !old(self).holds(parent_id) || old(self).holds(node.base().id)
                    &&& *final(self) == *old(self)
                },
                Err(TreeError::Bounds) => {
                    &&& old(self).holds(parent_id)
                    &&& !old(self).holds(node.base().id)
                    &&& node.base().shape@.intersect(
                        old(self).spec_base(old(self).slot(parent_id)).actual_shape@,
                    ).is_empty()
                    &&& *final(self) == *old(self)
                },
            },
    {
        let id: InodeId = node.id();
        let parent: usize = match self.find(parent_id) {
            Some(place) => place,
            None => {
                return Err(TreeError::InvalidId);
            },
        };
        if self.find(id).is_some() {
            return Err(TreeError::InvalidId);
        }
        match self.insert_at(parent, node) {
            Ok(_) => Ok(id),
            Err(e) => Err(e),
        }
    }

    /// Takes node `id` out of the tree, with all that stands below it, and
    /// hands the node back. The root is never taken out: for it, and for a
    /// node that the tree does not hold, the tree stays as it is and the
    /// result is the error.
    pub fn remove(&mut self, id: InodeId) -> (result: Result<T, TreeError>)
        requires
            old(self).wf(),
        ensures
            final(self).wf(),
            match result {
                Ok(node) => {
                    &&& old(self).holds(id)
                    &&& old(self).slot(id) > 0
                    &&& node == old(self).spec_node(old(self).slot(id))
                    &&& Self::pruned(*old(self), *final(self), old(self).slot(id))
                },
                Err(e) => {
                    &&& e == TreeError::InvalidId
                    &&& !old(self).holds(id) || old(self).slot(id) == 0
                    &&& *final(self) == *old(self)
                },
            },
    {
        match self.find(id) {
            Some(place) => self.remove_at(place),
            None => Err(TreeError::InvalidId),
        }
    }

    /// Sets the depth of node `id`. The tree holds no such node: it stays as
    /// it is, and the result is the error.
    pub fn set_depth(&mut self, id: InodeId, depth: usize) -> (result: Result<(), TreeError>)
        requires
            old(self).wf(),
        ensures
            final(self).wf(),
            match result {
                Ok(_) => old(self).holds(id) && Self::updated(
                    *old(self),
                    *final(self),
                    old(self).slot(id),
                    InodeBase { depth, ..old(self).spec_base(old(self).slot(id)) },
                ),
                Err(e) => e == TreeError::InvalidId && !old(self).holds(id) && *final(self) == *old(
                    self,
                ),
            },
    {
        match self.find(id) {
            Some(place) => self.set_depth_at(place, depth),
            None => Err(TreeError::InvalidId),
        }
    }

    /// Enables or disables node `id`. The tree holds no such node: it stays
    /// as it is, and the result is the error.
    pub fn set_enabled(&mut self, id: InodeId, enabled: bool) -> (result: Result<(), TreeError>)
        requires
            old(self).wf(),
        ensures
            final(self).wf(),
            match result {
                Ok(_) => old(self).holds(id) && Self::updated(
                    *old(self),
                    *final(self),
                    old(self).slot(id),
                    InodeBase { enabled, ..old(self).spec_base(old(self).slot(id)) },
                ),
                Err(e) => e == TreeError::InvalidId && !old(self).holds(id) && *final(self) == *old(
                    self,
                ),
            },
    {
        match self.find(id) {
            Some(place) => self.set_enabled_at(place, enabled),
            None => Err(TreeError::InvalidId),
        }
    }

    /// Shows or hides node `id`. The tree holds no such node: it stays as it
    /// is, and the result is the error.
    pub fn set_visible(&mut self, id: InodeId, visible: bool) -> (result: Result<(), TreeError>)
        requires
            old(self).wf(),
        ensures
            final(self).wf(),
            match result {
                Ok(_) => old(self).holds(id) && Self::updated(
                    *old(self),
                    *final(self),
                    old(self).slot(id),
                    InodeBase { visible, ..old(self).spec_base(old(self).slot(id)) },
                ),
                Err(e) => e == TreeError::InvalidId && !old(self).holds(id) && *final(self) == *old(
                    self,
                ),
            },
    {
        match self.find(id) {
            Some(place) => self.set_visible_at(place, visible),
            None => Err(TreeError::InvalidId),
        }
    }

    /// Gives node `id` a new z-index and moves it to its new place among
    /// the children of its parent. The tree holds no such node: it stays as
    /// it is, and the result is the error.
    pub fn set_zindex(&mut self, id: InodeId, zindex: usize) -> (result: Result<(), TreeError>)
        requires
            old(self).wf(),
        ensures
            final(self).wf(),
            match result {
                Ok(_) => old(self).holds(id) && Self::restacked(
                    *old(self),
                    *final(self),
                    old(self).slot(id),
                    zindex,
                ),
                Err(e) => e == TreeError::InvalidId && !old(self).holds(id) && *final(self) == *old(
                    self,
                ),
            },
    {
        match self.find(id) {
            Some(place) => self.set_zindex_at(place, zindex),
            None => Err(TreeError::InvalidId),
        }
    }

    /// Gives node `id` a new logical shape, clips it by its parent (the
    /// root, which has none, by the plane), and clips every node below it
    /// again. A shape that has no cell in common with what bounds the node is
    /// refused, and so is a node that the tree does not hold; the tree then
    /// stays as it is.
    pub fn set_shape(&mut self, id: InodeId, shape: &IRect) -> (result: Result<(), TreeError>)
        requires
            old(self).wf(),
        ensures
            final(self).wf(),
            match result {
                Ok(_) => {
                    &&& old(self).holds(id)
                    &&& !shape@.intersect(old(self).spec_bounds(old(self).slot(id))).is_empty()
                    &&& final(self).spec_base(old(self).slot(id)).shape == *shape
                    &&& final(self).spec_base(old(self).slot(id)).actual_shape@ == shape@.intersect(
                        old(self).spec_bounds(old(self).slot(id)),
                    )
                    &&& Self::reshaped(*old(self), *final(self), old(self).slot(id), *shape)
                },
                Err(TreeError::InvalidId) => !old(self).holds(id) && *final(self) == *old(self),
                Err(TreeError::Bounds) => {
                    &&& old(self).holds(id)
                    &&& shape@.intersect(old(self).spec_bounds(old(self).slot(id))).is_empty()
                    &&& *final(self) == *old(self)
                },
            },
    {
        match self.find(id) {
            Some(place) => self.set_shape_at(place, shape),
            None => Err(TreeError::InvalidId),
        }
    }

    /// The identities of the nodes in the order in which they are drawn: a
    /// node before its children, and the children of a node by ascending
    /// z-index, those of one z-index in the order of their insertion.
    pub fn draw_order(&self) -> (order: Vec<InodeId>)
        requires
            self.wf(),
        ensures
            order@ == self.ids_of(self.preorder(0)),
    {
        let places = self.draw_places();
        proof {
            self.lemma_places_live(0);
        }
        self.ids_at(&places)
    }

    /// The order of drawing from a node of the tree on holds places of nodes
    /// of the tree.
    pub proof fn lemma_places_live(self, id: int)
        requires
            self.wf_links(),
            self.contains(id),
        ensures
            forall|k: int|
                0 <= k < self.preorder(id).len() ==> self.contains(#[trigger] self.preorder(id)[k] as int),
        decreases self.spec_len() - id, self.spec_children(id).len() + 1,
    {
        self.lemma_len();
        self.lemma_places_live_from(id, 0);
        let rest = self.preorder_from(id, 0);
        assert forall|k: int| 0 <= k < self.preorder(id).len() implies self.contains(
            #[trigger] self.preorder(id)[k] as int,
        ) by {
            if k > 0 {
                assert(self.preorder(id)[k] == rest[k - 1]);
            }
        }
    }

    /// The order of drawing of the children of a node from child `k` on holds
    /// places of nodes of the tree.
    pub proof fn lemma_places_live_from(self, id: int, k: int)
        requires
            self.wf_links(),
            self.contains(id),
            0 <= k <= self.spec_children(id).len(),
        ensures
            forall|m: int|
                0 <= m < self.preorder_from(id, k).len() ==> self.contains(
                    #[trigger] self.preorder_from(id, k)[m] as int,
                ),
        decreases self.spec_len() - id, self.spec_children(id).len() - k,
    {
        if k < self.spec_children(id).len() {
            let c = self.spec_children(id)[k] as int;
            assert(self.edge(id, c));
            self.lemma_places_live(c);
            self.lemma_places_live_from(id, k + 1);
            let first = self.preorder(c);
            let rest = self.preorder_from(id, k + 1);
            assert forall|m: int| 0 <= m < self.preorder_from(id, k).len() implies self.contains(
                #[trigger] self.preorder_from(id, k)[m] as int,
            ) by {
                if m < first.len() {
                    assert(self.preorder_from(id, k)[m] == first[m]);
                } else {
                    assert(self.preorder_from(id, k)[m] == rest[m - first.len()]);
                }
            }
        }
    }
}

} // verus!
