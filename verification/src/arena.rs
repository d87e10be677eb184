//! The widget tree, held as an arena of nodes addressed by stable
//! integer handles. A child's handle is always greater than its
//! parent's, so the tree is acyclic by construction and every descent
//! terminates.

use vstd::prelude::*;
use crate::bounds::BoundBox;
use crate::bounds::Point2;
use crate::ident::WidgetIdent;
use crate::tags::IdRegistry;
use crate::tags::NO_GENERATION;
use crate::tags::UpdateTag;

verus! {

/// Most nodes an arena can hold; keeps cumulative ancestor offsets
/// representable in 64 bits.
pub const MAX_NODES: usize = 0x0100_0000;

/// Which capability set a node currently behaves as.
#[derive(Debug, Clone, Copy, PartialEq, Eq, Hash, Structural)]
pub enum WidgetKind {
    /// No children; receives events itself only.
    Leaf,
    /// An ordered collection of named children.
    Parent,
}

/// An edge to a child: its sibling identifier and its handle.
#[derive(Debug, Clone, Copy, PartialEq, Eq)]
pub struct ChildEntry {
    pub ident: WidgetIdent,
    pub widget: usize,
}

/// What a parent reports of one child on lookup.
#[derive(Debug, Clone, Copy, PartialEq, Eq)]
pub struct WidgetSummary {
    pub ident: WidgetIdent,
    pub rect: BoundBox,
    pub index: usize,
    pub widget: usize,
}

/// One node of the tree: its update tag, its bounding rectangle in
/// parent-local coordinates, and (for parents) its ordered children.
#[derive(Debug, Clone, PartialEq, Eq)]
pub struct WidgetNode {
    pub update_tag: UpdateTag,
    pub rect: BoundBox,
    pub kind: WidgetKind,
    pub children: Vec<ChildEntry>,
}

/// The tree. Handle 0 is the root.
#[derive(Debug, Clone, PartialEq, Eq)]
pub struct WidgetArena {
    pub nodes: Vec<WidgetNode>,
}

impl WidgetArena {
    pub open spec fn len_sp(self) -> int {
        self.nodes@.len() as int
    }

    pub open spec fn valid_handle(self, h: int) -> bool {
        0 <= h < self.nodes@.len()
    }

    pub open spec fn node_sp(self, h: int) -> WidgetNode {
        self.nodes@[h]
    }

    /// One node is well formed: its geometry and tag are, leaves have
    /// no children, and every child handle is greater than the node's
    /// own and in bounds.
    pub open spec fn wf_node(self, i: int) -> bool {
        &&& self.nodes@[i].rect.wf()
        &&& self.nodes@[i].update_tag.wf()
        &&& (self.nodes@[i].kind is Leaf ==> self.nodes@[i].children@.len() == 0)
        &&& forall|c: int|
            0 <= c < self.nodes@[i].children@.len() ==> i < #[trigger] self.nodes@[i].children@[c].widget
                < self.nodes@.len()
    }

    /// No handle occurs twice as a child anywhere in the tree, so
    /// every node has at most one parent and distinct children root
    /// disjoint subtrees.
    pub open spec fn unique_children(self) -> bool {
        forall|p1: int, c1: int, p2: int, c2: int|
            {
                &&& 0 <= p1 < self.nodes@.len()
                &&& 0 <= c1 < self.nodes@[p1].children@.len()
                &&& 0 <= p2 < self.nodes@.len()
                &&& 0 <= c2 < self.nodes@[p2].children@.len()
                &&& (p1 != p2 || c1 != c2)
            } ==> (#[trigger] self.nodes@[p1].children@[c1]).widget != (
            #[trigger] self.nodes@[p2].children@[c2]).widget
    }

    pub open spec fn wf(self) -> bool {
        &&& 1 <= self.nodes@.len() <= MAX_NODES
        &&& forall|i: int| 0 <= i < self.nodes@.len() ==> self.wf_node(i)
        &&& self.unique_children()
    }

    /// Uniqueness of children reads only the child lists, so any
    /// change that keeps every list keeps it.
    pub proof fn lemma_unique_same_children(a1: WidgetArena, a2: WidgetArena)
        requires
            a1.unique_children(),
            a1.nodes@.len() == a2.nodes@.len(),
            forall|n: int|
                0 <= n < a1.nodes@.len() ==> (#[trigger] a2.nodes@[n]).children@
                    == a1.nodes@[n].children@,
        ensures
            a2.unique_children(),
    {
        assert forall|p1: int, c1: int, p2: int, c2: int|
            {
                &&& 0 <= p1 < a2.nodes@.len()
                &&& 0 <= c1 < a2.nodes@[p1].children@.len()
                &&& 0 <= p2 < a2.nodes@.len()
                &&& 0 <= c2 < a2.nodes@[p2].children@.len()
                &&& (p1 != p2 || c1 != c2)
            } implies (#[trigger] a2.nodes@[p1].children@[c1]).widget != (
        #[trigger] a2.nodes@[p2].children@[c2]).widget by {
            assert(a2.nodes@[p1].children@[c1] == a1.nodes@[p1].children@[c1]);
            assert(a2.nodes@[p2].children@[c2] == a1.nodes@[p2].children@[c2]);
        }
    }

    /// `n` lies in the subtree rooted at `r`: it is `r` itself or sits
    /// in the subtree of one of `r`'s children.
    #[verifier::opaque]
    pub open spec fn in_subtree(self, r: int, n: int) -> bool
        decreases self.nodes@.len() - r,
    {
        n == r || exists|c: int|
            {
                &&& 0 <= c < self.nodes@[r].children@.len()
                &&& r < (#[trigger] self.nodes@[r].children@[c]).widget < self.nodes@.len()
                &&& self.in_subtree(self.nodes@[r].children@[c].widget as int, n)
            }
    }

    /// Every node is a member of its own subtree.
    pub proof fn lemma_subtree_refl(self, r: int)
        ensures
            self.in_subtree(r, r),
    {
        reveal_with_fuel(WidgetArena::in_subtree, 1);
    }

    /// Subtree membership never reaches below the root's own handle.
    pub proof fn lemma_subtree_ge(self, r: int, n: int)
        requires
            self.wf(),
            0 <= r < self.nodes@.len(),
            self.in_subtree(r, n),
        ensures
            r <= n < self.nodes@.len(),
        decreases self.nodes@.len() - r,
    {
        reveal_with_fuel(WidgetArena::in_subtree, 2);
        if n != r {
            let c = choose|c: int|
                {
                    &&& 0 <= c < self.nodes@[r].children@.len()
                    &&& r < (#[trigger] self.nodes@[r].children@[c]).widget < self.nodes@.len()
                    &&& self.in_subtree(self.nodes@[r].children@[c].widget as int, n)
                };
            self.lemma_subtree_ge(self.nodes@[r].children@[c].widget as int, n);
        }
    }

    /// A member of a child's subtree is a member of the parent's.
    pub proof fn lemma_subtree_step(self, r: int, c: int, n: int)
        requires
            self.wf(),
            0 <= r < self.nodes@.len(),
            0 <= c < self.nodes@[r].children@.len(),
            self.in_subtree(self.nodes@[r].children@[c].widget as int, n),
        ensures
            self.in_subtree(r, n),
    {
        reveal_with_fuel(WidgetArena::in_subtree, 2);
        assert(self.wf_node(r));
        assert(exists|cc: int|
            {
                &&& 0 <= cc < self.nodes@[r].children@.len()
                &&& r < (#[trigger] self.nodes@[r].children@[cc]).widget < self.nodes@.len()
                &&& self.in_subtree(self.nodes@[r].children@[cc].widget as int, n)
            }) by {
            assert({
                &&& 0 <= c < self.nodes@[r].children@.len()
                &&& r < self.nodes@[r].children@[c].widget < self.nodes@.len()
                &&& self.in_subtree(self.nodes@[r].children@[c].widget as int, n)
            });
        }
        assert(self.in_subtree(r, n));
    }

    /// A strict subtree member is reached through some child list: it
    /// has a parent, and that parent is in the same subtree.
    pub proof fn lemma_subtree_parent(self, r: int, n: int)
        requires
            self.wf(),
            0 <= r < self.nodes@.len(),
            self.in_subtree(r, n),
            n != r,
        ensures
            exists|p: int, c: int|
                {
                    &&& 0 <= p < self.nodes@.len()
                    &&& 0 <= c < self.nodes@[p].children@.len()
                    &&& (#[trigger] self.nodes@[p].children@[c]).widget == n
                    &&& self.in_subtree(r, p)
                },
        decreases self.nodes@.len() - r,
    {
        reveal_with_fuel(WidgetArena::in_subtree, 2);
        let c = choose|c: int|
            {
                &&& 0 <= c < self.nodes@[r].children@.len()
                &&& r < (#[trigger] self.nodes@[r].children@[c]).widget < self.nodes@.len()
                &&& self.in_subtree(self.nodes@[r].children@[c].widget as int, n)
            };
        assert(self.wf_node(r));
        let ch = self.nodes@[r].children@[c].widget as int;
        if ch == n {
            assert(self.nodes@[r].children@[c].widget == n);
            assert(self.in_subtree(r, r));
        } else {
            self.lemma_subtree_parent(ch, n);
            let (p, cc) = choose|p: int, cc: int|
                {
                    &&& 0 <= p < self.nodes@.len()
                    &&& 0 <= cc < self.nodes@[p].children@.len()
                    &&& (#[trigger] self.nodes@[p].children@[cc]).widget == n
                    &&& self.in_subtree(ch, p)
                };
            self.lemma_subtree_step(r, c, p);
        }
    }

    /// Subtree membership reads only the child lists, so any change
    /// that keeps every list keeps it (one direction).
    pub proof fn lemma_subtree_same_children_fwd(
        a1: WidgetArena,
        a2: WidgetArena,
        r: int,
        n: int,
    )
        requires
            a1.nodes@.len() == a2.nodes@.len(),
            forall|m: int|
                0 <= m < a1.nodes@.len() ==> (#[trigger] a2.nodes@[m]).children@
                    == a1.nodes@[m].children@,
            0 <= r < a1.nodes@.len(),
            a1.in_subtree(r, n),
        ensures
            a2.in_subtree(r, n),
        decreases a1.nodes@.len() - r,
    {
        reveal_with_fuel(WidgetArena::in_subtree, 2);
        if n != r {
            let c = choose|c: int|
                {
                    &&& 0 <= c < a1.nodes@[r].children@.len()
                    &&& r < (#[trigger] a1.nodes@[r].children@[c]).widget < a1.nodes@.len()
                    &&& a1.in_subtree(a1.nodes@[r].children@[c].widget as int, n)
                };
            WidgetArena::lemma_subtree_same_children_fwd(
                a1,
                a2,
                a1.nodes@[r].children@[c].widget as int,
                n,
            );
            assert(exists|cc: int|
                {
                    &&& 0 <= cc < a2.nodes@[r].children@.len()
                    &&& r < (#[trigger] a2.nodes@[r].children@[cc]).widget < a2.nodes@.len()
                    &&& a2.in_subtree(a2.nodes@[r].children@[cc].widget as int, n)
                }) by {
                assert(a2.nodes@[r].children@ == a1.nodes@[r].children@);
                assert({
                    &&& 0 <= c < a2.nodes@[r].children@.len()
                    &&& r < a2.nodes@[r].children@[c].widget < a2.nodes@.len()
                    &&& a2.in_subtree(a2.nodes@[r].children@[c].widget as int, n)
                });
            }
            assert(a2.in_subtree(r, n));
        }
    }

    /// Subtree membership reads only the child lists, so any change
    /// that keeps every list keeps it.
    pub proof fn lemma_subtree_same_children(a1: WidgetArena, a2: WidgetArena, r: int, n: int)
        requires
            a1.nodes@.len() == a2.nodes@.len(),
            forall|m: int|
                0 <= m < a1.nodes@.len() ==> (#[trigger] a2.nodes@[m]).children@
                    == a1.nodes@[m].children@,
            0 <= r < a1.nodes@.len(),
        ensures
            a1.in_subtree(r, n) == a2.in_subtree(r, n),
    {
        if a1.in_subtree(r, n) {
            WidgetArena::lemma_subtree_same_children_fwd(a1, a2, r, n);
        }
        if a2.in_subtree(r, n) {
            WidgetArena::lemma_subtree_same_children_fwd(a2, a1, r, n);
        }
    }

    /// Distinct children of one node root disjoint subtrees.
    pub proof fn lemma_subtree_disjoint(self, p: int, c1: int, c2: int, n: int)
        requires
            self.wf(),
            0 <= p < self.nodes@.len(),
            0 <= c1 < self.nodes@[p].children@.len(),
            0 <= c2 < self.nodes@[p].children@.len(),
            c1 != c2,
            self.in_subtree(self.nodes@[p].children@[c1].widget as int, n),
        ensures
            !self.in_subtree(self.nodes@[p].children@[c2].widget as int, n),
        decreases n,
    {
        reveal_with_fuel(WidgetArena::in_subtree, 2);
        let h1 = self.nodes@[p].children@[c1].widget as int;
        let h2 = self.nodes@[p].children@[c2].widget as int;
        assert(self.wf_node(p));
        if self.in_subtree(h2, n) {
            self.lemma_subtree_ge(h1, n);
            self.lemma_subtree_ge(h2, n);
            if n == h1 {
                // n's one parent slot is (p, c1), so a descent from h2
                // would have to pass through p, which lies below h2
                self.lemma_subtree_parent(h2, n);
                let (q, cc) = choose|q: int, cc: int|
                    {
                        &&& 0 <= q < self.nodes@.len()
                        &&& 0 <= cc < self.nodes@[q].children@.len()
                        &&& (#[trigger] self.nodes@[q].children@[cc]).widget == n
                        &&& self.in_subtree(h2, q)
                    };
                assert(q == p && cc == c1);
                self.lemma_subtree_ge(h2, p);
                assert(false);
            } else if n == h2 {
                self.lemma_subtree_parent(h1, n);
                let (q, cc) = choose|q: int, cc: int|
                    {
                        &&& 0 <= q < self.nodes@.len()
                        &&& 0 <= cc < self.nodes@[q].children@.len()
                        &&& (#[trigger] self.nodes@[q].children@[cc]).widget == n
                        &&& self.in_subtree(h1, q)
                    };
                assert(q == p && cc == c2);
                self.lemma_subtree_ge(h1, p);
                assert(false);
            } else {
                self.lemma_subtree_parent(h1, n);
                let (q1, cc1) = choose|q1: int, cc1: int|
                    {
                        &&& 0 <= q1 < self.nodes@.len()
                        &&& 0 <= cc1 < self.nodes@[q1].children@.len()
                        &&& (#[trigger] self.nodes@[q1].children@[cc1]).widget == n
                        &&& self.in_subtree(h1, q1)
                    };
                self.lemma_subtree_parent(h2, n);
                let (q2, cc2) = choose|q2: int, cc2: int|
                    {
                        &&& 0 <= q2 < self.nodes@.len()
                        &&& 0 <= cc2 < self.nodes@[q2].children@.len()
                        &&& (#[trigger] self.nodes@[q2].children@[cc2]).widget == n
                        &&& self.in_subtree(h2, q2)
                    };
                assert(q1 == q2 && cc1 == cc2);
                self.lemma_subtree_ge(h1, q1);
                assert(self.wf_node(q1));
                assert(q1 < n);
                self.lemma_subtree_disjoint(p, c1, c2, q1);
                assert(false);
            }
        }
    }

    /// `child` is one of `parent`'s immediate children.
    pub open spec fn is_child_sp(self, parent: int, child: int) -> bool {
        exists|c: int|
            0 <= c < self.nodes@[parent].children@.len() && #[trigger] self.nodes@[parent].children@[c].widget
                == child
    }

    /// A new tree holding only a root node.
    pub fn new(rect: BoundBox, kind: WidgetKind, registry: &mut IdRegistry) -> (r: WidgetArena)
        requires
            rect.wf(),
            old(registry).next < NO_GENERATION,
        ensures
            r.wf(),
            r.nodes@.len() == 1,
            r.nodes@[0].rect == rect,
            r.nodes@[0].kind == kind,
            r.nodes@[0].children@.len() == 0,
            r.nodes@[0].update_tag == UpdateTag::new_sp(crate::tags::WidgetID(old(registry).next)),
            final(registry).next == old(registry).next + 1,
    {
        let tag = UpdateTag::new(registry.fresh_widget_id());
        let node = WidgetNode { update_tag: tag, rect, kind, children: Vec::new() };
        let mut nodes = Vec::new();
        nodes.push(node);
        WidgetArena { nodes }
    }

    /// Append a new child under `parent`; returns its handle, which is
    /// the greatest in the tree.
    pub fn add_child(
        &mut self,
        parent: usize,
        ident: WidgetIdent,
        rect: BoundBox,
        kind: WidgetKind,
        registry: &mut IdRegistry,
    ) -> (h: usize)
        requires
            old(self).wf(),
            old(self).valid_handle(parent as int),
            old(self).nodes@[parent as int].kind is Parent,
            rect.wf(),
            old(self).nodes@.len() < MAX_NODES,
            old(registry).next < NO_GENERATION,
        ensures
            final(self).wf(),
            h == old(self).nodes@.len(),
            final(self).nodes@.len() == old(self).nodes@.len() + 1,
            final(self).nodes@[h as int].rect == rect,
            final(self).nodes@[h as int].kind == kind,
            final(self).nodes@[h as int].children@.len() == 0,
            final(self).nodes@[h as int].update_tag == UpdateTag::new_sp(
                crate::tags::WidgetID(old(registry).next),
            ),
            final(self).nodes@[parent as int].children@ == old(
                self,
            ).nodes@[parent as int].children@.push(ChildEntry { ident, widget: h }),
            final(self).nodes@[parent as int].update_tag == old(
                self,
            ).nodes@[parent as int].update_tag,
            final(self).nodes@[parent as int].rect == old(self).nodes@[parent as int].rect,
            final(self).nodes@[parent as int].kind == old(self).nodes@[parent as int].kind,
            forall|i: int|
                0 <= i < old(self).nodes@.len() && i != parent as int ==> final(self).nodes@[i]
                    == old(self).nodes@[i],
            final(registry).next == old(registry).next + 1,
    {
        let h = self.nodes.len();
        let tag = UpdateTag::new(registry.fresh_widget_id());
        let node = WidgetNode { update_tag: tag, rect, kind, children: Vec::new() };
        self.nodes.push(node);
        let entry = ChildEntry { ident, widget: h };
        let parent_node = &mut self.nodes[parent];
        parent_node.children.push(entry);
        proof {
            let new_len = self.nodes@.len() as int;
            assert forall|i: int| 0 <= i < new_len implies self.wf_node(i) by {
                if i == h as int {
                    assert(self.nodes@[i].children@.len() == 0);
                } else if i == parent as int {
                    assert(old(self).wf_node(i));
                    let oldc = old(self).nodes@[i].children@;
                    let newc = self.nodes@[i].children@;
                    assert(newc == oldc.push(ChildEntry { ident, widget: h }));
                    assert forall|c: int| 0 <= c < newc.len() implies i < (#[trigger] newc[c]).widget
                        < new_len by {
                        if c < oldc.len() {
                            assert(newc[c] == oldc[c]);
                            assert(i < oldc[c].widget < old(self).nodes@.len());
                        } else {
                            assert(newc[c].widget == h);
                        }
                    }
                } else {
                    assert(self.nodes@[i] == old(self).nodes@[i]);
                    assert(old(self).wf_node(i));
                }
            }
            // the new entry names a handle no other list can hold, and
            // the fresh node's own list is empty
            assert forall|p1: int, c1: int, p2: int, c2: int|
                {
                    &&& 0 <= p1 < self.nodes@.len()
                    &&& 0 <= c1 < self.nodes@[p1].children@.len()
                    &&& 0 <= p2 < self.nodes@.len()
                    &&& 0 <= c2 < self.nodes@[p2].children@.len()
                    &&& (p1 != p2 || c1 != c2)
                } implies (#[trigger] self.nodes@[p1].children@[c1]).widget != (
            #[trigger] self.nodes@[p2].children@[c2]).widget by {
                let oldc = old(self).nodes@[parent as int].children@;
                if p1 < old(self).nodes@.len() && p2 < old(self).nodes@.len() {
                    let w1: int = if p1 == parent as int && c1 == oldc.len() {
                        h as int
                    } else {
                        assert(self.nodes@[p1].children@[c1] == old(
                            self,
                        ).nodes@[p1].children@[c1]);
                        assert(old(self).wf_node(p1));
                        self.nodes@[p1].children@[c1].widget as int
                    };
                    let w2: int = if p2 == parent as int && c2 == oldc.len() {
                        h as int
                    } else {
                        assert(self.nodes@[p2].children@[c2] == old(
                            self,
                        ).nodes@[p2].children@[c2]);
                        assert(old(self).wf_node(p2));
                        self.nodes@[p2].children@[c2].widget as int
                    };
                }
            }
        }
        h
    }

    pub fn num_nodes(&self) -> (r: usize)
        ensures
            r == self.nodes@.len(),
    {
        self.nodes.len()
    }

    /// Child count of a node; zero for leaves.
    pub fn num_children(&self, h: usize) -> (r: usize)
        requires
            self.wf(),
            self.valid_handle(h as int),
        ensures
            r == self.nodes@[h as int].children@.len(),
    {
        self.nodes[h].children.len()
    }

    pub fn kind(&self, h: usize) -> (r: WidgetKind)
        requires
            self.wf(),
            self.valid_handle(h as int),
        ensures
            r == self.nodes@[h as int].kind,
    {
        self.nodes[h].kind
    }

    pub fn rect(&self, h: usize) -> (r: BoundBox)
        requires
            self.wf(),
            self.valid_handle(h as int),
        ensures
            r == self.nodes@[h as int].rect,
    {
        self.nodes[h].rect
    }

    /// Replace a node's rectangle; everything else is untouched.
    pub fn set_rect(&mut self, h: usize, rect: BoundBox)
        requires
            old(self).wf(),
            old(self).valid_handle(h as int),
            rect.wf(),
        ensures
            final(self).wf(),
            final(self).nodes@ == old(self).nodes@.update(
                h as int,
                WidgetNode { rect, ..old(self).nodes@[h as int] },
            ),
    {
        self.nodes[h].rect = rect;
        proof {
            assert(self.nodes@ == old(self).nodes@.update(
                h as int,
                WidgetNode { rect, ..old(self).nodes@[h as int] },
            ));
            assert forall|i: int| 0 <= i < self.nodes@.len() implies self.wf_node(i) by {
                assert(old(self).wf_node(i));
                if i != h as int {
                    assert(self.nodes@[i] == old(self).nodes@[i]);
                }
            }
            WidgetArena::lemma_unique_same_children(*old(self), *self);
        }
    }

    /// Shared view of a node's update tag.
    pub fn tag(&self, h: usize) -> (r: &UpdateTag)
        requires
            self.wf(),
            self.valid_handle(h as int),
        ensures
            r == self.nodes@[h as int].update_tag,
    {
        &self.nodes[h].update_tag
    }

    /// Replace a node's update tag; everything else is untouched.
    pub fn set_tag(&mut self, h: usize, tag: UpdateTag)
        requires
            old(self).wf(),
            old(self).valid_handle(h as int),
            tag.wf(),
        ensures
            final(self).wf(),
            final(self).nodes@ == old(self).nodes@.update(
                h as int,
                WidgetNode { update_tag: tag, ..old(self).nodes@[h as int] },
            ),
    {
        self.nodes[h].update_tag = tag;
        proof {
            assert(self.nodes@ == old(self).nodes@.update(
                h as int,
                WidgetNode { update_tag: tag, ..old(self).nodes@[h as int] },
            ));
            assert forall|i: int| 0 <= i < self.nodes@.len() implies self.wf_node(i) by {
                assert(old(self).wf_node(i));
                if i != h as int {
                    assert(self.nodes@[i] == old(self).nodes@[i]);
                }
            }
            WidgetArena::lemma_unique_same_children(*old(self), *self);
        }
    }

    /// Set the render-self dirty bit of a node's tag.
    pub fn mark_render_self(&mut self, h: usize)
        requires
            old(self).wf(),
            old(self).valid_handle(h as int),
        ensures
            final(self).wf(),
            final(self).nodes@ == old(self).nodes@.update(
                h as int,
                WidgetNode {
                    update_tag: (UpdateTag {
                        render_self: true,
                        last_root: NO_GENERATION,
                        ..old(self).nodes@[h as int].update_tag
                    }),
                    ..old(self).nodes@[h as int]
                },
            ),
    {
        self.nodes[h].update_tag.mark_render_self();
        proof {
            assert forall|i: int| 0 <= i < self.nodes@.len() implies self.wf_node(i) by {
                assert(old(self).wf_node(i));
                if i != h as int {
                    assert(self.nodes@[i] == old(self).nodes@[i]);
                }
            }
            assert(self.nodes@ =~= old(self).nodes@.update(
                h as int,
                WidgetNode {
                    update_tag: self.nodes@[h as int].update_tag,
                    ..old(self).nodes@[h as int]
                },
            ));
            WidgetArena::lemma_unique_same_children(*old(self), *self);
        }
    }

    /// Set the update-child dirty bit of a node's tag.
    pub fn mark_update_child(&mut self, h: usize)
        requires
            old(self).wf(),
            old(self).valid_handle(h as int),
        ensures
            final(self).wf(),
            final(self).nodes@ == old(self).nodes@.update(
                h as int,
                WidgetNode {
                    update_tag: (UpdateTag {
                        update_child: true,
                        last_root: NO_GENERATION,
                        ..old(self).nodes@[h as int].update_tag
                    }),
                    ..old(self).nodes@[h as int]
                },
            ),
    {
        self.nodes[h].update_tag.mark_update_child();
        proof {
            assert forall|i: int| 0 <= i < self.nodes@.len() implies self.wf_node(i) by {
                assert(old(self).wf_node(i));
                if i != h as int {
                    assert(self.nodes@[i] == old(self).nodes@[i]);
                }
            }
            assert(self.nodes@ =~= old(self).nodes@.update(
                h as int,
                WidgetNode {
                    update_tag: self.nodes@[h as int].update_tag,
                    ..old(self).nodes@[h as int]
                },
            ));
            WidgetArena::lemma_unique_same_children(*old(self), *self);
        }
    }

    /// Set the update-layout dirty bit of a node's tag.
    pub fn mark_update_layout(&mut self, h: usize)
        requires
            old(self).wf(),
            old(self).valid_handle(h as int),
        ensures
            final(self).wf(),
            final(self).nodes@ == old(self).nodes@.update(
                h as int,
                WidgetNode {
                    update_tag: (UpdateTag {
                        update_layout: true,
                        last_root: NO_GENERATION,
                        ..old(self).nodes@[h as int].update_tag
                    }),
                    ..old(self).nodes@[h as int]
                },
            ),
    {
        self.nodes[h].update_tag.mark_update_layout();
        proof {
            assert forall|i: int| 0 <= i < self.nodes@.len() implies self.wf_node(i) by {
                assert(old(self).wf_node(i));
                if i != h as int {
                    assert(self.nodes@[i] == old(self).nodes@[i]);
                }
            }
            assert(self.nodes@ =~= old(self).nodes@.update(
                h as int,
                WidgetNode {
                    update_tag: self.nodes@[h as int].update_tag,
                    ..old(self).nodes@[h as int]
                },
            ));
            WidgetArena::lemma_unique_same_children(*old(self), *self);
        }
    }

    /// Set the update-timer dirty bit of a node's tag.
    pub fn mark_update_timer(&mut self, h: usize)
        requires
            old(self).wf(),
            old(self).valid_handle(h as int),
        ensures
            final(self).wf(),
            final(self).nodes@ == old(self).nodes@.update(
                h as int,
                WidgetNode {
                    update_tag: (UpdateTag {
                        update_timer: true,
                        last_root: NO_GENERATION,
                        ..old(self).nodes@[h as int].update_tag
                    }),
                    ..old(self).nodes@[h as int]
                },
            ),
    {
        self.nodes[h].update_tag.mark_update_timer();
        proof {
            assert forall|i: int| 0 <= i < self.nodes@.len() implies self.wf_node(i) by {
                assert(old(self).wf_node(i));
                if i != h as int {
                    assert(self.nodes@[i] == old(self).nodes@[i]);
                }
            }
            assert(self.nodes@ =~= old(self).nodes@.update(
                h as int,
                WidgetNode {
                    update_tag: self.nodes@[h as int].update_tag,
                    ..old(self).nodes@[h as int]
                },
            ));
            WidgetArena::lemma_unique_same_children(*old(self), *self);
        }
    }

    /// Stamp a node's tag fully processed for `root`; raw bits kept.
    pub fn mark_updated(&mut self, h: usize, root: crate::tags::RootID)
        requires
            old(self).wf(),
            old(self).valid_handle(h as int),
        ensures
            final(self).wf(),
            final(self).nodes@ == old(self).nodes@.update(
                h as int,
                WidgetNode {
                    update_tag: old(self).nodes@[h as int].update_tag.mark_updated_sp(root),
                    ..old(self).nodes@[h as int]
                },
            ),
    {
        self.nodes[h].update_tag.mark_updated(root);
        proof {
            assert forall|i: int| 0 <= i < self.nodes@.len() implies self.wf_node(i) by {
                assert(old(self).wf_node(i));
                if i != h as int {
                    assert(self.nodes@[i] == old(self).nodes@[i]);
                }
            }
            assert(self.nodes@ =~= old(self).nodes@.update(
                h as int,
                WidgetNode {
                    update_tag: self.nodes@[h as int].update_tag,
                    ..old(self).nodes@[h as int]
                },
            ));
            WidgetArena::lemma_unique_same_children(*old(self), *self);
        }
    }

    /// Add the classes in `mask` to a node's interest summary.
    pub fn merge_cer(&mut self, h: usize, mask: crate::cer::ChildEventRecv)
        requires
            old(self).wf(),
            old(self).valid_handle(h as int),
        ensures
            final(self).wf(),
            final(self).nodes@ == old(self).nodes@.update(
                h as int,
                WidgetNode {
                    update_tag: (UpdateTag {
                        child_event_recv: old(
                            self,
                        ).nodes@[h as int].update_tag.child_event_recv.union_sp(mask),
                        ..old(self).nodes@[h as int].update_tag
                    }),
                    ..old(self).nodes@[h as int]
                },
            ),
    {
        let merged = self.nodes[h].update_tag.child_event_recv.union(mask);
        self.nodes[h].update_tag.child_event_recv = merged;
        proof {
            assert forall|i: int| 0 <= i < self.nodes@.len() implies self.wf_node(i) by {
                assert(old(self).wf_node(i));
                if i != h as int {
                    assert(self.nodes@[i] == old(self).nodes@[i]);
                }
            }
            assert(self.nodes@ =~= old(self).nodes@.update(
                h as int,
                WidgetNode {
                    update_tag: self.nodes@[h as int].update_tag,
                    ..old(self).nodes@[h as int]
                },
            ));
            WidgetArena::lemma_unique_same_children(*old(self), *self);
        }
    }

    /// Remove the classes in `mask` from a node's interest summary.
    pub fn remove_cer(&mut self, h: usize, mask: crate::cer::ChildEventRecv)
        requires
            old(self).wf(),
            old(self).valid_handle(h as int),
        ensures
            final(self).wf(),
            final(self).nodes@ == old(self).nodes@.update(
                h as int,
                WidgetNode {
                    update_tag: (UpdateTag {
                        child_event_recv: old(
                            self,
                        ).nodes@[h as int].update_tag.child_event_recv.subtract_sp(mask),
                        ..old(self).nodes@[h as int].update_tag
                    }),
                    ..old(self).nodes@[h as int]
                },
            ),
    {
        let cleared = self.nodes[h].update_tag.child_event_recv.subtract(mask);
        self.nodes[h].update_tag.child_event_recv = cleared;
        proof {
            assert forall|i: int| 0 <= i < self.nodes@.len() implies self.wf_node(i) by {
                assert(old(self).wf_node(i));
                if i != h as int {
                    assert(self.nodes@[i] == old(self).nodes@[i]);
                }
            }
            assert(self.nodes@ =~= old(self).nodes@.update(
                h as int,
                WidgetNode {
                    update_tag: self.nodes@[h as int].update_tag,
                    ..old(self).nodes@[h as int]
                },
            ));
            WidgetArena::lemma_unique_same_children(*old(self), *self);
        }
    }

    /// Replace a node's pointer-tracking state.
    pub fn set_mouse_state(&mut self, h: usize, state: crate::tags::MouseState)
        requires
            old(self).wf(),
            old(self).valid_handle(h as int),
            state.wf(),
        ensures
            final(self).wf(),
            final(self).nodes@ == old(self).nodes@.update(
                h as int,
                WidgetNode {
                    update_tag: (UpdateTag {
                        mouse_state: state,
                        ..old(self).nodes@[h as int].update_tag
                    }),
                    ..old(self).nodes@[h as int]
                },
            ),
    {
        self.nodes[h].update_tag.mouse_state = state;
        proof {
            assert forall|i: int| 0 <= i < self.nodes@.len() implies self.wf_node(i) by {
                assert(old(self).wf_node(i));
                if i != h as int {
                    assert(self.nodes@[i] == old(self).nodes@[i]);
                }
            }
            assert(self.nodes@ =~= old(self).nodes@.update(
                h as int,
                WidgetNode {
                    update_tag: self.nodes@[h as int].update_tag,
                    ..old(self).nodes@[h as int]
                },
            ));
            WidgetArena::lemma_unique_same_children(*old(self), *self);
        }
    }

    /// Grant or revoke keyboard focus on a node's tag.
    pub fn set_keyboard_focus(&mut self, h: usize, focus: bool)
        requires
            old(self).wf(),
            old(self).valid_handle(h as int),
        ensures
            final(self).wf(),
            final(self).nodes@ == old(self).nodes@.update(
                h as int,
                WidgetNode {
                    update_tag: (UpdateTag {
                        has_keyboard_focus: focus,
                        ..old(self).nodes@[h as int].update_tag
                    }),
                    ..old(self).nodes@[h as int]
                },
            ),
    {
        self.nodes[h].update_tag.has_keyboard_focus = focus;
        proof {
            assert forall|i: int| 0 <= i < self.nodes@.len() implies self.wf_node(i) by {
                assert(old(self).wf_node(i));
                if i != h as int {
                    assert(self.nodes@[i] == old(self).nodes@[i]);
                }
            }
            assert(self.nodes@ =~= old(self).nodes@.update(
                h as int,
                WidgetNode {
                    update_tag: self.nodes@[h as int].update_tag,
                    ..old(self).nodes@[h as int]
                },
            ));
            WidgetArena::lemma_unique_same_children(*old(self), *self);
        }
    }

    /// Look a child up by identifier: the first child so named, if any.
    pub fn child(&self, parent: usize, ident: &WidgetIdent) -> (r: Option<WidgetSummary>)
        requires
            self.wf(),
            self.valid_handle(parent as int),
        ensures
            match r {
                Some(s) => {
                    &&& s.index < self.nodes@[parent as int].children@.len()
                    &&& self.nodes@[parent as int].children@[s.index as int].ident@ == ident@
                    &&& s.ident == self.nodes@[parent as int].children@[s.index as int].ident
                    &&& s.widget == self.nodes@[parent as int].children@[s.index as int].widget
                    &&& s.rect == self.nodes@[s.widget as int].rect
                    &&& forall|k: int|
                        0 <= k < s.index ==> self.nodes@[parent as int].children@[k].ident@
                            != ident@
                },
                None => forall|k: int|
                    0 <= k < self.nodes@[parent as int].children@.len()
                        ==> #[trigger] self.nodes@[parent as int].children@[k].ident@ != ident@,
            },
    {
        let children = &self.nodes[parent].children;
        let mut i: usize = 0;
        while i < children.len()
            invariant
                self.wf(),
                self.valid_handle(parent as int),
                children == self.nodes@[parent as int].children,
                0 <= i <= children@.len(),
                forall|k: int| 0 <= k < i ==> children@[k].ident@ != ident@,
            decreases children@.len() - i,
        {
            let entry = children[i];
            if entry.ident.eq_ident(ident) {
                assert(self.wf_node(parent as int));
                let rect = self.nodes[entry.widget].rect;
                return Some(
                    WidgetSummary { ident: entry.ident, rect, index: i, widget: entry.widget },
                );
            }
            i += 1;
        }
        None
    }

    /// Look a child up by its position among its siblings.
    pub fn child_by_index(&self, parent: usize, index: usize) -> (r: Option<WidgetSummary>)
        requires
            self.wf(),
            self.valid_handle(parent as int),
        ensures
            match r {
                Some(s) => {
                    &&& s.index == index
                    &&& index < self.nodes@[parent as int].children@.len()
                    &&& s.ident == self.nodes@[parent as int].children@[index as int].ident
                    &&& s.widget == self.nodes@[parent as int].children@[index as int].widget
                    &&& s.rect == self.nodes@[s.widget as int].rect
                },
                None => index >= self.nodes@[parent as int].children@.len(),
            },
    {
        let children = &self.nodes[parent].children;
        if index < children.len() {
            assert(self.wf_node(parent as int));
            let entry = children[index];
            let rect = self.nodes[entry.widget].rect;
            Some(WidgetSummary { ident: entry.ident, rect, index, widget: entry.widget })
        } else {
            None
        }
    }

    /// Every child of a node, in sibling order, as lookup summaries.
    pub fn children(&self, parent: usize) -> (r: Vec<WidgetSummary>)
        requires
            self.wf(),
            self.valid_handle(parent as int),
        ensures
            r@.len() == self.nodes@[parent as int].children@.len(),
            forall|k: int|
                0 <= k < r@.len() ==> {
                    let entry = self.nodes@[parent as int].children@[k];
                    (#[trigger] r@[k]) == (WidgetSummary {
                        ident: entry.ident,
                        rect: self.nodes@[entry.widget as int].rect,
                        index: k as usize,
                        widget: entry.widget,
                    })
                },
    {
        let num = self.nodes[parent].children.len();
        let mut r: Vec<WidgetSummary> = Vec::new();
        let mut k: usize = 0;
        while k < num
            invariant
                self.wf(),
                self.valid_handle(parent as int),
                num == self.nodes@[parent as int].children@.len(),
                0 <= k <= num,
                r@.len() == k,
                forall|j: int|
                    0 <= j < k ==> {
                        let entry = self.nodes@[parent as int].children@[j];
                        (#[trigger] r@[j]) == (WidgetSummary {
                            ident: entry.ident,
                            rect: self.nodes@[entry.widget as int].rect,
                            index: j as usize,
                            widget: entry.widget,
                        })
                    },
            decreases num - k,
        {
            proof {
                assert(self.wf_node(parent as int));
            }
            let entry = self.nodes[parent].children[k];
            let rect = self.nodes[entry.widget].rect;
            r.push(WidgetSummary { ident: entry.ident, rect, index: k, widget: entry.widget });
            k += 1;
        }
        r
    }

    /// Point-containment lookup: the first child, in sibling order,
    /// whose rectangle contains `p` (in the parent's interior frame).
    pub fn child_by_point(&self, parent: usize, p: Point2) -> (r: Option<WidgetSummary>)
        requires
            self.wf(),
            self.valid_handle(parent as int),
        ensures
            match r {
                Some(s) => {
                    &&& s.index < self.nodes@[parent as int].children@.len()
                    &&& s.ident == self.nodes@[parent as int].children@[s.index as int].ident
                    &&& s.widget == self.nodes@[parent as int].children@[s.index as int].widget
                    &&& s.rect == self.nodes@[s.widget as int].rect
                    &&& s.rect.contains_sp(p)
                    &&& forall|k: int|
                        0 <= k < s.index ==> !self.nodes@[(
                        #[trigger] self.nodes@[parent as int].children@[k]).widget as int].rect.contains_sp(p)
                },
                None => forall|k: int|
                    0 <= k < self.nodes@[parent as int].children@.len() ==> !self.nodes@[(
                    #[trigger] self.nodes@[parent as int].children@[k]).widget as int].rect.contains_sp(p),
            },
    {
        let num = self.nodes[parent].children.len();
        let mut i: usize = 0;
        while i < num
            invariant
                self.wf(),
                self.valid_handle(parent as int),
                num == self.nodes@[parent as int].children@.len(),
                0 <= i <= num,
                forall|k: int|
                    0 <= k < i ==> !self.nodes@[(
                    #[trigger] self.nodes@[parent as int].children@[k]).widget as int].rect.contains_sp(p),
            decreases num - i,
        {
            assert(self.wf_node(parent as int));
            let entry = self.nodes[parent].children[i];
            let rect = self.nodes[entry.widget].rect;
            if rect.contains(p) {
                return Some(
                    WidgetSummary { ident: entry.ident, rect, index: i, widget: entry.widget },
                );
            }
            i += 1;
        }
        None
    }
}

} // verus!
