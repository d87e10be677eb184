//! The reusable path stack: one live root-to-node traversal, with
//! cumulative coordinate-offset tracking and automatic ancestor dirty
//! propagation whenever a level is popped.

use vstd::prelude::*;
use crate::arena::ChildEntry;
use crate::arena::WidgetKind;
use crate::arena::MAX_NODES;
use crate::arena::WidgetArena;
use crate::arena::WidgetSummary;
use crate::bounds::BoundBox;
use crate::cer::ChildEventRecv;
use crate::bounds::COORD_LIMIT;
use crate::bounds::Point2;
use crate::bounds::Vector2;
use crate::ident::WidgetIdent;
use crate::tags::NO_GENERATION;
use crate::tags::RootID;
use crate::tags::UpdateTag;

verus! {

/// One level of the traversal: the node's handle and its position
/// among its parent's children (0 for the root).
#[derive(Debug, Clone, Copy, PartialEq, Eq, Hash, Structural)]
pub struct StackEntry {
    pub widget: usize,
    pub index: usize,
}

/// The path stack. Entry 0, when present, is always the tree root.
#[derive(Debug, Clone, PartialEq, Eq)]
pub struct WidgetStack {
    pub entries: Vec<StackEntry>,
    pub idents: Vec<WidgetIdent>,
    pub offset_x: i64,
    pub offset_y: i64,
    pub root_id: RootID,
}

/// The update tag of the node an entry points at.
pub open spec fn entry_tag(arena: WidgetArena, e: StackEntry) -> UpdateTag {
    arena.nodes@[e.widget as int].update_tag
}

/// The node as the propagation rule leaves it: update-child set and the
/// stamp invalidated, everything else untouched.
pub open spec fn marked_node(node: crate::arena::WidgetNode) -> crate::arena::WidgetNode {
    crate::arena::WidgetNode {
        update_tag: UpdateTag {
            update_child: true,
            last_root: NO_GENERATION,
            ..node.update_tag
        },
        ..node
    }
}

fn clone_entries(v: &Vec<StackEntry>) -> (r: Vec<StackEntry>)
    ensures
        r@ == v@,
{
    let mut r: Vec<StackEntry> = Vec::new();
    let mut i: usize = 0;
    while i < v.len()
        invariant
            0 <= i <= v@.len(),
            r@ == v@.take(i as int),
        decreases v@.len() - i,
    {
        r.push(v[i]);
        proof {
            assert(r@ == v@.take(i + 1));
        }
        i += 1;
    }
    proof {
        assert(v@.take(v@.len() as int) == v@);
    }
    r
}

fn clone_idents(v: &Vec<WidgetIdent>) -> (r: Vec<WidgetIdent>)
    ensures
        r@ == v@,
{
    let mut r: Vec<WidgetIdent> = Vec::new();
    let mut i: usize = 0;
    while i < v.len()
        invariant
            0 <= i <= v@.len(),
            r@ == v@.take(i as int),
        decreases v@.len() - i,
    {
        r.push(v[i]);
        proof {
            assert(r@ == v@.take(i + 1));
        }
        i += 1;
    }
    proof {
        assert(v@.take(v@.len() as int) == v@);
    }
    r
}

/// Sum the rectangle origins of all levels but the last, from scratch.
fn recompute_offset(arena: &WidgetArena, entries: &Vec<StackEntry>) -> (r: Vector2)
    requires
        arena.wf(),
        1 <= entries@.len() <= MAX_NODES,
        forall|i: int|
            0 <= i < entries@.len() ==> arena.valid_handle((#[trigger] entries@[i]).widget as int),
    ensures
        r.x == WidgetStack::offset_sum_x(*arena, entries@, entries@.len() - 1),
        r.y == WidgetStack::offset_sum_y(*arena, entries@, entries@.len() - 1),
{
    let mut x: i64 = 0;
    let mut y: i64 = 0;
    let mut i: usize = 0;
    let last = entries.len() - 1;
    while i < last
        invariant
            arena.wf(),
            1 <= entries@.len() <= MAX_NODES,
            forall|k: int|
                0 <= k < entries@.len() ==> arena.valid_handle(
                    (#[trigger] entries@[k]).widget as int,
                ),
            last == entries@.len() - 1,
            0 <= i <= last,
            x == WidgetStack::offset_sum_x(*arena, entries@, i as int),
            y == WidgetStack::offset_sum_y(*arena, entries@, i as int),
        decreases last - i,
    {
        proof {
            WidgetStack::lemma_offset_sum_bound(*arena, entries@, i as int);
            assert(arena.wf_node(entries@[i as int].widget as int));
        }
        let rect = arena.rect(entries[i].widget);
        x = x + rect.min.x;
        y = y + rect.min.y;
        i += 1;
    }
    Vector2 { x, y }
}

impl WidgetStack {
    pub open spec fn len_sp(self) -> int {
        self.entries@.len() as int
    }

    /// Sum of the x origins of the first `k` levels' rectangles.
    pub open spec fn offset_sum_x(arena: WidgetArena, entries: Seq<StackEntry>, k: int) -> int
        decreases k,
    {
        if k <= 0 {
            0
        } else {
            WidgetStack::offset_sum_x(arena, entries, k - 1)
                + arena.nodes@[entries[k - 1].widget as int].rect.min.x
        }
    }

    /// Sum of the y origins of the first `k` levels' rectangles.
    pub open spec fn offset_sum_y(arena: WidgetArena, entries: Seq<StackEntry>, k: int) -> int
        decreases k,
    {
        if k <= 0 {
            0
        } else {
            WidgetStack::offset_sum_y(arena, entries, k - 1)
                + arena.nodes@[entries[k - 1].widget as int].rect.min.y
        }
    }

    /// Level `i` really is the child its entry claims, under level `i-1`.
    pub open spec fn link_ok(self, arena: WidgetArena, i: int) -> bool {
        let p = self.entries@[i - 1].widget as int;
        let e = self.entries@[i];
        &&& e.index < arena.nodes@[p].children@.len()
        &&& arena.nodes@[p].children@[e.index as int].widget == e.widget
        &&& arena.nodes@[p].children@[e.index as int].ident == self.idents@[i]
    }

    pub open spec fn wf(self, arena: WidgetArena) -> bool {
        &&& arena.wf()
        &&& self.root_id.0 != NO_GENERATION
        &&& self.entries@.len() == self.idents@.len()
        &&& forall|i: int|
            0 <= i < self.len_sp() ==> arena.valid_handle(
                (#[trigger] self.entries@[i]).widget as int,
            )
        &&& (self.len_sp() > 0 ==> self.entries@[0].widget == 0 && self.entries@[0].index == 0
            && self.idents@[0] == WidgetIdent::Num(0))
        &&& forall|i: int| 1 <= i < self.len_sp() ==> self.link_ok(arena, i)
        &&& self.offset_x == WidgetStack::offset_sum_x(arena, self.entries@, self.len_sp() - 1)
        &&& self.offset_y == WidgetStack::offset_sum_y(arena, self.entries@, self.len_sp() - 1)
    }

    /// The node at level `i` needs work for this stack's generation.
    pub open spec fn dirty_at(self, arena: WidgetArena, i: int) -> bool {
        entry_tag(arena, self.entries@[i]).is_dirty_sp(self.root_id)
    }

    /// Entry handles grow strictly along the path.
    pub proof fn lemma_entries_increasing(self, arena: WidgetArena, i: int, j: int)
        requires
            self.wf(arena),
            0 <= i < j < self.len_sp(),
        ensures
            self.entries@[i].widget < self.entries@[j].widget,
        decreases j - i,
    {
        let p = self.entries@[j - 1].widget as int;
        assert(self.link_ok(arena, j));
        assert(arena.wf_node(p));
        assert(arena.nodes@[p].children@[self.entries@[j].index as int].widget
            == self.entries@[j].widget);
        assert(self.entries@[j - 1].widget < self.entries@[j].widget);
        if i < j - 1 {
            self.lemma_entries_increasing(arena, i, j - 1);
        }
    }

    /// A path can never be longer than the tree it traverses.
    pub proof fn lemma_len_bounded(self, arena: WidgetArena)
        requires
            self.wf(arena),
        ensures
            self.len_sp() <= arena.nodes@.len(),
    {
        if self.len_sp() > 0 {
            self.lemma_entry_at_least(arena, self.len_sp() - 1);
        }
    }

    proof fn lemma_entry_at_least(self, arena: WidgetArena, i: int)
        requires
            self.wf(arena),
            0 <= i < self.len_sp(),
        ensures
            self.entries@[i].widget >= i,
        decreases i,
    {
        if i > 0 {
            self.lemma_entry_at_least(arena, i - 1);
            self.lemma_entries_increasing(arena, i - 1, i);
        }
    }

    /// The offset sums only read the first `k` entries.
    pub proof fn lemma_offset_sum_prefix(
        arena: WidgetArena,
        s1: Seq<StackEntry>,
        s2: Seq<StackEntry>,
        k: int,
    )
        requires
            forall|i: int| 0 <= i < k ==> s1[i] == s2[i],
        ensures
            WidgetStack::offset_sum_x(arena, s1, k) == WidgetStack::offset_sum_x(arena, s2, k),
            WidgetStack::offset_sum_y(arena, s1, k) == WidgetStack::offset_sum_y(arena, s2, k),
        decreases k,
    {
        if k > 0 {
            WidgetStack::lemma_offset_sum_prefix(arena, s1, s2, k - 1);
        }
    }

    /// The offset sums only read the entries' rectangles.
    pub proof fn lemma_offset_sum_same_rects(
        a1: WidgetArena,
        a2: WidgetArena,
        entries: Seq<StackEntry>,
        k: int,
    )
        requires
            forall|i: int|
                0 <= i < k ==> a1.nodes@[(#[trigger] entries[i]).widget as int].rect
                    == a2.nodes@[entries[i].widget as int].rect,
        ensures
            WidgetStack::offset_sum_x(a1, entries, k) == WidgetStack::offset_sum_x(a2, entries, k),
            WidgetStack::offset_sum_y(a1, entries, k) == WidgetStack::offset_sum_y(a2, entries, k),
        decreases k,
    {
        if k > 0 {
            WidgetStack::lemma_offset_sum_same_rects(a1, a2, entries, k - 1);
        }
    }

    /// The offset sums stay within `k` times the coordinate limit.
    pub proof fn lemma_offset_sum_bound(arena: WidgetArena, entries: Seq<StackEntry>, k: int)
        requires
            arena.wf(),
            0 <= k <= entries.len(),
            forall|i: int|
                0 <= i < k ==> arena.valid_handle((#[trigger] entries[i]).widget as int),
        ensures
            -(k * COORD_LIMIT) <= WidgetStack::offset_sum_x(arena, entries, k) <= k * COORD_LIMIT,
            -(k * COORD_LIMIT) <= WidgetStack::offset_sum_y(arena, entries, k) <= k * COORD_LIMIT,
        decreases k,
    {
        if k > 0 {
            WidgetStack::lemma_offset_sum_bound(arena, entries, k - 1);
            assert(arena.wf_node(entries[k - 1].widget as int));
        }
    }

    /// A fresh, empty stack bound to one root generation.
    pub fn new(root_id: RootID) -> (r: WidgetStack)
        requires
            root_id.0 != NO_GENERATION,
        ensures
            r.entries@.len() == 0,
            r.idents@.len() == 0,
            r.offset_x == 0,
            r.offset_y == 0,
            r.root_id == root_id,
    {
        WidgetStack {
            entries: Vec::new(),
            idents: Vec::new(),
            offset_x: 0,
            offset_y: 0,
            root_id,
        }
    }

    pub fn len(&self) -> (r: usize)
        ensures
            r == self.len_sp(),
    {
        self.entries.len()
    }

    pub fn is_empty(&self) -> (r: bool)
        ensures
            r == (self.len_sp() == 0),
    {
        self.entries.len() == 0
    }

    /// Depth of the top below the root; 0 at the root itself.
    pub fn depth(&self) -> (r: usize)
        requires
            self.len_sp() >= 1,
        ensures
            r == self.len_sp() - 1,
    {
        self.entries.len() - 1
    }

    /// Handle of the deepest node on the path.
    pub fn top(&self) -> (r: usize)
        requires
            self.len_sp() >= 1,
        ensures
            r == self.entries@.last().widget,
    {
        self.entries[self.entries.len() - 1].widget
    }

    /// Sibling position of the deepest node.
    pub fn top_index(&self) -> (r: usize)
        requires
            self.len_sp() >= 1,
        ensures
            r == self.entries@.last().index,
    {
        self.entries[self.entries.len() - 1].index
    }

    /// Identifier of the deepest node.
    pub fn top_ident(&self) -> (r: WidgetIdent)
        requires
            self.len_sp() >= 1,
            self.idents@.len() == self.entries@.len(),
        ensures
            r == self.idents@.last(),
    {
        self.idents[self.idents.len() - 1]
    }

    /// The identifier path from the root down to the top.
    pub fn ident(&self) -> (r: &Vec<WidgetIdent>)
        ensures
            r@ == self.idents@,
    {
        &self.idents
    }

    /// Cumulative offset from root space to the frame the top node's
    /// rectangle lives in (its parent's interior).
    pub fn top_parent_offset(&self) -> (r: Vector2)
        ensures
            r.x == self.offset_x,
            r.y == self.offset_y,
    {
        Vector2 { x: self.offset_x, y: self.offset_y }
    }

    /// The top node's rectangle translated into root space.
    pub fn top_bounds_offset(&self, arena: &WidgetArena) -> (r: BoundBox)
        requires
            self.wf(*arena),
            self.len_sp() >= 1,
        ensures
            r.min.x == arena.nodes@[self.entries@.last().widget as int].rect.min.x + self.offset_x,
            r.min.y == arena.nodes@[self.entries@.last().widget as int].rect.min.y + self.offset_y,
            r.max.x == arena.nodes@[self.entries@.last().widget as int].rect.max.x + self.offset_x,
            r.max.y == arena.nodes@[self.entries@.last().widget as int].rect.max.y + self.offset_y,
    {
        proof {
            self.lemma_len_bounded(*arena);
            WidgetStack::lemma_offset_sum_bound(*arena, self.entries@, self.len_sp() - 1);
            assert(arena.wf_node(self.entries@.last().widget as int));
        }
        let rect = arena.rect(self.top());
        BoundBox {
            min: Point2 { x: rect.min.x + self.offset_x, y: rect.min.y + self.offset_y },
            max: Point2 { x: rect.max.x + self.offset_x, y: rect.max.y + self.offset_y },
        }
    }

    /// Begin a traversal: put the tree root on the empty stack.
    pub fn push_root(&mut self, arena: &WidgetArena)
        requires
            arena.wf(),
            old(self).len_sp() == 0,
            old(self).idents@.len() == 0,
            old(self).root_id.0 != NO_GENERATION,
        ensures
            final(self).wf(*arena),
            final(self).entries@ == old(self).entries@.push(StackEntry { widget: 0, index: 0 }),
            final(self).idents@ == old(self).idents@.push(WidgetIdent::Num(0)),
            final(self).offset_x == 0,
            final(self).offset_y == 0,
            final(self).root_id == old(self).root_id,
    {
        self.entries.push(StackEntry { widget: 0, index: 0 });
        self.idents.push(WidgetIdent::Num(0));
        self.offset_x = 0;
        self.offset_y = 0;
    }

    /// Push one child of the current top, described by a summary the
    /// arena produced for that top.
    fn push_child(&mut self, arena: &WidgetArena, s: WidgetSummary)
        requires
            old(self).wf(*arena),
            old(self).len_sp() >= 1,
            s.index < arena.nodes@[old(self).entries@.last().widget as int].children@.len(),
            arena.nodes@[old(self).entries@.last().widget as int].children@[s.index as int]
                == (ChildEntry { ident: s.ident, widget: s.widget }),
        ensures
            final(self).wf(*arena),
            final(self).entries@ == old(self).entries@.push(
                StackEntry { widget: s.widget, index: s.index },
            ),
            final(self).idents@ == old(self).idents@.push(s.ident),
            final(self).offset_x == old(self).offset_x + arena.nodes@[old(
                self,
            ).entries@.last().widget as int].rect.min.x,
            final(self).offset_y == old(self).offset_y + arena.nodes@[old(
                self,
            ).entries@.last().widget as int].rect.min.y,
            final(self).root_id == old(self).root_id,
    {
        proof {
            self.lemma_len_bounded(*arena);
            WidgetStack::lemma_offset_sum_bound(*arena, self.entries@, self.len_sp() - 1);
            assert(arena.wf_node(self.entries@.last().widget as int));
        }
        let top = self.top();
        let top_rect = arena.rect(top);
        self.entries.push(StackEntry { widget: s.widget, index: s.index });
        self.idents.push(s.ident);
        self.offset_x = self.offset_x + top_rect.min.x;
        self.offset_y = self.offset_y + top_rect.min.y;
        proof {
            let new_len = self.len_sp();
            let top_h = old(self).entries@.last().widget as int;
            assert(arena.wf_node(top_h));
            assert(top_h < arena.nodes@[top_h].children@[s.index as int].widget
                < arena.nodes@.len());
            assert forall|i: int|
                0 <= i < new_len implies arena.valid_handle(
                (#[trigger] self.entries@[i]).widget as int,
            ) by {
                if i < new_len - 1 {
                    assert(self.entries@[i] == old(self).entries@[i]);
                }
            }
            assert forall|i: int| 1 <= i < new_len implies self.link_ok(*arena, i) by {
                if i < new_len - 1 {
                    assert(old(self).link_ok(*arena, i));
                    assert(self.entries@[i - 1] == old(self).entries@[i - 1]);
                    assert(self.entries@[i] == old(self).entries@[i]);
                    assert(self.idents@[i] == old(self).idents@[i]);
                }
            }
            WidgetStack::lemma_offset_sum_prefix(
                *arena,
                self.entries@,
                old(self).entries@,
                new_len - 2,
            );
            assert(WidgetStack::offset_sum_x(*arena, self.entries@, new_len - 1)
                == WidgetStack::offset_sum_x(*arena, self.entries@, new_len - 2) + arena.nodes@[
                self.entries@[new_len - 2].widget as int].rect.min.x);
        }
    }

    /// Push the child of the top named by `ident`, if the top is a
    /// parent and has one; the stack is unchanged otherwise.
    pub fn try_push_ident(&mut self, arena: &WidgetArena, ident: &WidgetIdent) -> (r: Option<
        WidgetSummary,
    >)
        requires
            old(self).wf(*arena),
            old(self).len_sp() >= 1,
        ensures
            final(self).wf(*arena),
            final(self).root_id == old(self).root_id,
            match r {
                Some(s) => {
                    &&& s.ident@ == ident@
                    &&& arena.nodes@[old(self).entries@.last().widget as int].children@[s.index as int]
                        == (ChildEntry { ident: s.ident, widget: s.widget })
                    &&& s.index < arena.nodes@[old(self).entries@.last().widget as int].children@.len()
                    &&& forall|k: int|
                        0 <= k < s.index ==> arena.nodes@[old(
                            self,
                        ).entries@.last().widget as int].children@[k].ident@ != ident@
                    &&& final(self).entries@ == old(self).entries@.push(
                        StackEntry { widget: s.widget, index: s.index },
                    )
                    &&& final(self).idents@ == old(self).idents@.push(s.ident)
                },
                None => {
                    &&& *final(self) == *old(self)
                    &&& forall|k: int|
                        0 <= k < arena.nodes@[old(self).entries@.last().widget as int].children@.len()
                            ==> (#[trigger] arena.nodes@[old(
                            self,
                        ).entries@.last().widget as int].children@[k]).ident@ != ident@
                },
            },
    {
        let top = self.top();
        match arena.child(top, ident) {
            Some(s) => {
                self.push_child(arena, s);
                Some(s)
            },
            None => None,
        }
    }

    /// Push the child of the top at sibling position `index`, if any.
    pub fn try_push_index(&mut self, arena: &WidgetArena, index: usize) -> (r: Option<
        WidgetSummary,
    >)
        requires
            old(self).wf(*arena),
            old(self).len_sp() >= 1,
        ensures
            final(self).wf(*arena),
            final(self).root_id == old(self).root_id,
            match r {
                Some(s) => {
                    &&& s.index == index
                    &&& arena.nodes@[old(self).entries@.last().widget as int].children@[s.index as int]
                        == (ChildEntry { ident: s.ident, widget: s.widget })
                    &&& index < arena.nodes@[old(self).entries@.last().widget as int].children@.len()
                    &&& final(self).entries@ == old(self).entries@.push(
                        StackEntry { widget: s.widget, index: s.index },
                    )
                    &&& final(self).idents@ == old(self).idents@.push(s.ident)
                },
                None => {
                    &&& *final(self) == *old(self)
                    &&& index >= arena.nodes@[old(self).entries@.last().widget as int].children@.len()
                },
            },
    {
        let top = self.top();
        match arena.child_by_index(top, index) {
            Some(s) => {
                self.push_child(arena, s);
                Some(s)
            },
            None => None,
        }
    }

    /// Push the first child of the top whose rectangle contains `p`
    /// (in the top's interior frame), if any.
    pub fn try_push_point(&mut self, arena: &WidgetArena, p: Point2) -> (r: Option<WidgetSummary>)
        requires
            old(self).wf(*arena),
            old(self).len_sp() >= 1,
        ensures
            final(self).wf(*arena),
            final(self).root_id == old(self).root_id,
            match r {
                Some(s) => {
                    &&& arena.nodes@[old(self).entries@.last().widget as int].children@[s.index as int]
                        == (ChildEntry { ident: s.ident, widget: s.widget })
                    &&& s.index < arena.nodes@[old(self).entries@.last().widget as int].children@.len()
                    &&& s.rect == arena.nodes@[s.widget as int].rect
                    &&& s.rect.contains_sp(p)
                    &&& forall|k: int|
                        0 <= k < s.index ==> !arena.nodes@[(#[trigger] arena.nodes@[old(
                            self,
                        ).entries@.last().widget as int].children@[k]).widget as int].rect.contains_sp(
                            p,
                        )
                    &&& final(self).entries@ == old(self).entries@.push(
                        StackEntry { widget: s.widget, index: s.index },
                    )
                    &&& final(self).idents@ == old(self).idents@.push(s.ident)
                },
                None => {
                    &&& *final(self) == *old(self)
                    &&& forall|k: int|
                        0 <= k < arena.nodes@[old(self).entries@.last().widget as int].children@.len()
                            ==> !arena.nodes@[(#[trigger] arena.nodes@[old(
                            self,
                        ).entries@.last().widget as int].children@[k]).widget as int].rect.contains_sp(
                            p,
                        )
                },
            },
    {
        let top = self.top();
        match arena.child_by_point(top, p) {
            Some(s) => {
                self.push_child(arena, s);
                Some(s)
            },
            None => None,
        }
    }

    /// Remove the top entry, refusing to pop the root: a depth-0 stack
    /// is returned unchanged. If the popped node reports pending work
    /// for the current generation, the new top's update-child bit is
    /// set — the propagation-invariant enforcement point.
    pub fn pop(&mut self, arena: &mut WidgetArena) -> (r: Option<usize>)
        requires
            old(self).wf(*old(arena)),
        ensures
            final(self).wf(*final(arena)),
            final(self).root_id == old(self).root_id,
            old(self).len_sp() <= 1 ==> {
                &&& r is None
                &&& *final(self) == *old(self)
                &&& *final(arena) == *old(arena)
            },
            old(self).len_sp() > 1 ==> {
                &&& r == Some(old(self).entries@.last().widget)
                &&& final(self).entries@ == old(self).entries@.drop_last()
                &&& final(self).idents@ == old(self).idents@.drop_last()
                &&& {
                    let parent = old(self).entries@[old(self).len_sp() - 2].widget as int;
                    if entry_tag(*old(arena), old(self).entries@.last()).is_dirty_sp(
                        old(self).root_id,
                    ) {
                        &&& final(arena).nodes@ == old(arena).nodes@.update(
                            parent,
                            crate::arena::WidgetNode {
                                update_tag: (UpdateTag {
                                    update_child: true,
                                    last_root: NO_GENERATION,
                                    ..old(arena).nodes@[parent].update_tag
                                }),
                                ..old(arena).nodes@[parent]
                            },
                        )
                        &&& final(self).dirty_at(*final(arena), final(self).len_sp() - 1)
                        &&& entry_tag(*final(arena), final(self).entries@.last()).update_child
                    } else {
                        *final(arena) == *old(arena)
                    }
                }
            },
    {
        if self.entries.len() <= 1 {
            return None;
        }
        proof {
            self.lemma_len_bounded(*old(arena));
            WidgetStack::lemma_offset_sum_bound(*old(arena), self.entries@, self.len_sp() - 1);
        }
        let popped = self.top();
        let len = self.entries.len();
        let parent = self.entries[len - 2].widget;
        proof {
            assert(arena.wf_node(parent as int));
        }
        self.entries.pop();
        self.idents.pop();
        let parent_rect = arena.rect(parent);
        self.offset_x = self.offset_x - parent_rect.min.x;
        self.offset_y = self.offset_y - parent_rect.min.y;

        let dirty = {
            let tag = arena.tag(popped);
            let needs = tag.needs_update(self.root_id);
            needs.render_self || needs.update_child || needs.update_timer || needs.update_layout
        };
        if dirty {
            arena.mark_update_child(parent);
        }
        proof {
            let new_len = self.len_sp();
            assert(self.entries@ == old(self).entries@.drop_last());
            assert forall|i: int|
                0 <= i < new_len implies final(arena).valid_handle(
                (#[trigger] self.entries@[i]).widget as int,
            ) by {
                assert(self.entries@[i] == old(self).entries@[i]);
            }
            assert forall|i: int| 1 <= i < new_len implies self.link_ok(*arena, i) by {
                assert(old(self).link_ok(*old(arena), i));
                assert(self.entries@[i - 1] == old(self).entries@[i - 1]);
                assert(self.entries@[i] == old(self).entries@[i]);
                assert(self.idents@[i] == old(self).idents@[i]);
                assert(arena.nodes@[self.entries@[i - 1].widget as int].children@ == old(
                    arena,
                ).nodes@[self.entries@[i - 1].widget as int].children@);
            }
            WidgetStack::lemma_offset_sum_prefix(
                *old(arena),
                self.entries@,
                old(self).entries@,
                new_len - 1,
            );
            WidgetStack::lemma_offset_sum_same_rects(
                *old(arena),
                *arena,
                self.entries@,
                new_len - 1,
            );
            assert(WidgetStack::offset_sum_x(*old(arena), old(self).entries@, new_len)
                == WidgetStack::offset_sum_x(*old(arena), old(self).entries@, new_len - 1)
                + old(arena).nodes@[old(self).entries@[new_len - 1].widget as int].rect.min.x);
        }
        Some(popped)
    }

    /// Pop levels until at most `to_len` remain, applying the
    /// propagation rule at every step: afterwards, every remaining or
    /// removed ancestor below which some level needed work reports
    /// update-child — the propagation invariant.
    pub fn truncate(&mut self, arena: &mut WidgetArena, to_len: usize)
        requires
            old(self).wf(*old(arena)),
            1 <= to_len,
            old(self).len_sp() >= 1,
        ensures
            final(self).wf(*final(arena)),
            final(self).root_id == old(self).root_id,
            final(arena).nodes@.len() == old(arena).nodes@.len(),
            to_len >= old(self).len_sp() ==> *final(self) == *old(self) && *final(arena) == *old(
                arena,
            ),
            final(self).len_sp() == if to_len as int <= old(self).len_sp() {
                to_len as int
            } else {
                old(self).len_sp()
            },
            final(self).entries@ == old(self).entries@.take(final(self).len_sp()),
            final(self).idents@ == old(self).idents@.take(final(self).len_sp()),
            forall|n: int|
                0 <= n < old(arena).nodes@.len() && !(exists|i: int|
                    to_len - 1 <= i < old(self).len_sp() - 1 && (#[trigger] old(
                        self,
                    ).entries@[i]).widget == n) ==> final(arena).nodes@[n] == old(arena).nodes@[n],
            forall|i: int|
                to_len - 1 <= i < old(self).len_sp() - 1 ==> {
                    let n = (#[trigger] old(self).entries@[i]).widget as int;
                    final(arena).nodes@[n] == old(arena).nodes@[n] || final(arena).nodes@[n]
                        == marked_node(old(arena).nodes@[n])
                },
            forall|i: int|
                to_len - 1 <= i < old(self).len_sp() - 1 ==> ((exists|j: int|
                    i < j < old(self).len_sp() && old(self).dirty_at(*old(arena), j)) ==> {
                    let n = (#[trigger] old(self).entries@[i]).widget as int;
                    &&& final(arena).nodes@[n].update_tag.update_child
                    &&& final(arena).nodes@[n].update_tag.is_dirty_sp(old(self).root_id)
                }),
    {
        let ghost orig_stack = *self;
        let ghost orig_arena = *arena;
        let ghost old_len = self.len_sp();
        proof {
            self.lemma_len_bounded(*arena);
            assert forall|i: int, j: int|
                0 <= i < j < old_len implies (#[trigger] orig_stack.entries@[i]).widget
                != (#[trigger] orig_stack.entries@[j]).widget by {
                orig_stack.lemma_entries_increasing(orig_arena, i, j);
            }
        }
        if to_len >= self.entries.len() {
            proof {
                assert(self.entries@ =~= orig_stack.entries@.take(self.len_sp()));
                assert(self.idents@ =~= orig_stack.idents@.take(self.len_sp()));
            }
            return ;
        }
        while self.entries.len() > to_len
            invariant
                self.wf(*arena),
                to_len >= 1,
                self.root_id == orig_stack.root_id,
                orig_stack.wf(orig_arena),
                old_len == orig_stack.len_sp(),
                to_len as int <= self.len_sp() <= old_len,
                self.entries@ == orig_stack.entries@.take(self.len_sp()),
                self.idents@ == orig_stack.idents@.take(self.len_sp()),
                arena.nodes@.len() == orig_arena.nodes@.len(),
                self.len_sp() == old_len ==> *self == orig_stack && *arena == orig_arena,
                forall|i: int, j: int|
                    0 <= i < j < old_len ==> (#[trigger] orig_stack.entries@[i]).widget
                        != (#[trigger] orig_stack.entries@[j]).widget,
                // frame: only parents of already-popped levels changed
                forall|n: int|
                    0 <= n < orig_arena.nodes@.len() && !(exists|i: int|
                        self.len_sp() - 1 <= i < old_len - 1 && (#[trigger] orig_stack.entries@[i]).widget
                            == n) ==> arena.nodes@[n] == orig_arena.nodes@[n],
                forall|i: int|
                    self.len_sp() - 1 <= i < old_len - 1 ==> {
                        let n = (#[trigger] orig_stack.entries@[i]).widget as int;
                        arena.nodes@[n] == orig_arena.nodes@[n] || arena.nodes@[n] == marked_node(
                            orig_arena.nodes@[n],
                        )
                    },
                // the chain law for the levels handled so far
                forall|i: int|
                    self.len_sp() - 1 <= i < old_len - 1 ==> ((exists|j: int|
                        i < j < old_len && orig_stack.dirty_at(orig_arena, j)) ==> {
                        let n = (#[trigger] orig_stack.entries@[i]).widget as int;
                        &&& arena.nodes@[n].update_tag.update_child
                        &&& arena.nodes@[n].update_tag.is_dirty_sp(orig_stack.root_id)
                    }),
                // the current top is dirty now exactly when some level at
                // or above it was dirty to begin with
                self.len_sp() >= 1 ==> (self.dirty_at(*arena, self.len_sp() - 1) <==> exists|
                    j: int,
                |
                    self.len_sp() - 1 <= j < old_len && orig_stack.dirty_at(orig_arena, j)),
            decreases self.len_sp(),
        {
            let ghost pre_stack = *self;
            let ghost pre_arena = *arena;
            let cur_len = self.entries.len();
            self.pop(arena);
            proof {
                let k = self.len_sp();  // == cur_len - 1
                assert(self.entries@ =~= orig_stack.entries@.take(k));
                assert(self.idents@ =~= orig_stack.idents@.take(k));
                let popped_entry = pre_stack.entries@[cur_len - 1];
                let parent_n = orig_stack.entries@[k - 1].widget as int;
                let popped_dirty = entry_tag(pre_arena, popped_entry).is_dirty_sp(self.root_id);
                if popped_dirty {
                    assert(arena.nodes@ == pre_arena.nodes@.update(
                        parent_n,
                        marked_node(pre_arena.nodes@[parent_n]),
                    ));
                    // the parent was untouched before this pop, so the mark
                    // applies to its original state
                    assert(pre_arena.nodes@[parent_n] == orig_arena.nodes@[parent_n]);
                } else {
                    assert(*arena == pre_arena);
                }
                // dirtiness of the popped level traces back to an original level
                assert(popped_dirty <==> exists|j: int|
                    cur_len - 1 <= j < old_len && orig_stack.dirty_at(orig_arena, j));
                assert forall|n: int|
                    0 <= n < orig_arena.nodes@.len() && !(exists|i: int|
                        k - 1 <= i < old_len - 1 && (#[trigger] orig_stack.entries@[i]).widget
                            == n) implies arena.nodes@[n] == orig_arena.nodes@[n] by {
                    assert(orig_stack.entries@[k - 1].widget != n);
                }
                assert forall|i: int|
                    k - 1 <= i < old_len - 1 implies ((exists|j: int|
                        i < j < old_len && orig_stack.dirty_at(orig_arena, j)) ==> {
                        let n = (#[trigger] orig_stack.entries@[i]).widget as int;
                        &&& arena.nodes@[n].update_tag.update_child
                        &&& arena.nodes@[n].update_tag.is_dirty_sp(orig_stack.root_id)
                    }) by {
                    let n = orig_stack.entries@[i].widget as int;
                    if exists|j: int| i < j < old_len && orig_stack.dirty_at(orig_arena, j) {
                        if i == k - 1 {
                            if popped_dirty {
                                assert(arena.nodes@[n] == marked_node(orig_arena.nodes@[n]));
                            } else {
                                // nothing at or above the popped level was
                                // dirty, so the dirt sits at this level or
                                // was marked here earlier -- but no level
                                // above was dirty, contradiction unless the
                                // chain claim is vacuous
                                let j = choose|j: int|
                                    i < j < old_len && orig_stack.dirty_at(orig_arena, j);
                                assert(cur_len - 1 <= j < old_len);
                                assert(false);
                            }
                        } else {
                            // handled by an earlier pop; this pop only
                            // touched the new top's node
                            assert(i > k - 1);
                            assert(orig_stack.entries@[i].widget != orig_stack.entries@[k
                                - 1].widget);
                            assert(arena.nodes@[n] == pre_arena.nodes@[n]);
                        }
                    }
                }
                // re-establish the current-top dirtiness characterization
                let top_n = orig_stack.entries@[k - 1].widget as int;
                if popped_dirty {
                    assert(self.dirty_at(*arena, k - 1));
                    let j = choose|j: int|
                        cur_len - 1 <= j < old_len && orig_stack.dirty_at(orig_arena, j);
                    assert(k - 1 <= j < old_len && orig_stack.dirty_at(orig_arena, j));
                } else {
                    // nothing at or above the popped level was dirty originally
                    assert(forall|j: int|
                        cur_len - 1 <= j < old_len ==> !orig_stack.dirty_at(orig_arena, j));
                    // the new top's node was never touched: touched levels
                    // lie strictly above it and carry distinct handles
                    assert forall|i: int|
                        k - 1 <= i < old_len - 1 && (#[trigger] orig_stack.entries@[i]).widget
                            == top_n implies i == k - 1 by {}
                    assert(!(exists|i: int|
                        k <= i < old_len - 1 && (#[trigger] orig_stack.entries@[i]).widget
                            == top_n));
                    assert(arena.nodes@[top_n] == pre_arena.nodes@[top_n]);
                    assert(pre_arena.nodes@[top_n] == orig_arena.nodes@[top_n]);
                    assert(self.dirty_at(*arena, k - 1) == orig_stack.dirty_at(orig_arena, k - 1));
                    if self.dirty_at(*arena, k - 1) {
                        assert(k - 1 <= k - 1 < old_len && orig_stack.dirty_at(orig_arena, k - 1));
                    }
                    if exists|j: int| k - 1 <= j < old_len && orig_stack.dirty_at(orig_arena, j) {
                        let j = choose|j: int|
                            k - 1 <= j < old_len && orig_stack.dirty_at(orig_arena, j);
                        assert(j == k - 1);
                    }
                }
            }
        }
    }

    /// Unwind to the root, propagating dirtiness at every step.
    pub fn move_to_root(&mut self, arena: &mut WidgetArena)
        requires
            old(self).wf(*old(arena)),
            old(self).len_sp() >= 1,
        ensures
            final(self).wf(*final(arena)),
            final(self).root_id == old(self).root_id,
            final(self).len_sp() == 1,
            final(self).entries@ == old(self).entries@.take(1),
            final(self).idents@ == old(self).idents@.take(1),
            final(arena).nodes@.len() == old(arena).nodes@.len(),
            forall|n: int|
                0 <= n < old(arena).nodes@.len() ==> final(arena).nodes@[n] == old(arena).nodes@[n]
                    || final(arena).nodes@[n] == marked_node(old(arena).nodes@[n]),
            // the propagation rule was applied at every removed level:
            // an ancestor below which some level needed work reports
            // update-child afterwards
            forall|i: int|
                0 <= i < old(self).len_sp() - 1 ==> ((exists|j: int|
                    i < j < old(self).len_sp() && old(self).dirty_at(*old(arena), j)) ==> {
                    let n = (#[trigger] old(self).entries@[i]).widget as int;
                    &&& final(arena).nodes@[n].update_tag.update_child
                    &&& final(arena).nodes@[n].update_tag.is_dirty_sp(old(self).root_id)
                }),
    {
        self.truncate(arena, 1);
    }

    /// Position of the first child whose rectangle contains `p` (in
    /// the parent's interior frame), if any.
    pub open spec fn first_containing_sp(
        arena: WidgetArena,
        children: Seq<ChildEntry>,
        p: Point2,
    ) -> Option<int>
        decreases children.len(),
    {
        if children.len() == 0 {
            None
        } else if arena.nodes@[children[0].widget as int].rect.contains_sp(p) {
            Some(0int)
        } else {
            match WidgetStack::first_containing_sp(arena, children.drop_first(), p) {
                Some(i) => Some(i + 1),
                None => None,
            }
        }
    }

    proof fn lemma_first_containing_some(
        arena: WidgetArena,
        children: Seq<ChildEntry>,
        p: Point2,
        idx: int,
    )
        requires
            0 <= idx < children.len(),
            arena.nodes@[children[idx].widget as int].rect.contains_sp(p),
            forall|k: int|
                0 <= k < idx ==> !arena.nodes@[(#[trigger] children[k]).widget as int].rect.contains_sp(
                    p,
                ),
        ensures
            WidgetStack::first_containing_sp(arena, children, p) == Some(idx),
        decreases idx,
    {
        if idx > 0 {
            WidgetStack::lemma_first_containing_some(arena, children.drop_first(), p, idx - 1);
        }
    }

    proof fn lemma_first_containing_none(
        arena: WidgetArena,
        children: Seq<ChildEntry>,
        p: Point2,
    )
        requires
            forall|k: int|
                0 <= k < children.len() ==> !arena.nodes@[(#[trigger] children[k]).widget as int].rect.contains_sp(
                    p,
                ),
        ensures
            WidgetStack::first_containing_sp(arena, children, p) is None,
        decreases children.len(),
    {
        if children.len() > 0 {
            WidgetStack::lemma_first_containing_none(arena, children.drop_first(), p);
        }
    }

    /// The levels the hit-test descent pushes below node `h` for a
    /// point `q` given in `h`'s interior frame: at every parent, the
    /// first child containing the point, until a leaf or a miss.
    pub open spec fn hit_chain_sp(arena: WidgetArena, h: int, q: Point2) -> Seq<StackEntry>
        decreases arena.nodes@.len() - h,
    {
        if !(0 <= h < arena.nodes@.len()) || arena.nodes@[h].kind is Leaf {
            Seq::empty()
        } else {
            match WidgetStack::first_containing_sp(arena, arena.nodes@[h].children@, q) {
                None => Seq::empty(),
                Some(c) => {
                    let child = arena.nodes@[h].children@[c].widget as int;
                    if h < child < arena.nodes@.len() {
                        seq![
                            StackEntry { widget: child as usize, index: c as usize },
                        ] + WidgetStack::hit_chain_sp(
                            arena,
                            child,
                            Point2 {
                                x: (q.x - arena.nodes@[child].rect.min.x) as i64,
                                y: (q.y - arena.nodes@[child].rect.min.y) as i64,
                            },
                        )
                    } else {
                        Seq::empty()
                    }
                },
            }
        }
    }

    /// Hit-test descent: from the current top, repeatedly push the
    /// first child containing `p` (root-space) until a leaf is reached
    /// or no child contains the point. The exact levels pushed are the
    /// hit chain of the current top.
    pub fn move_to_point(&mut self, arena: &WidgetArena, p: Point2)
        requires
            old(self).wf(*arena),
            old(self).len_sp() >= 1,
            p.in_range(),
        ensures
            final(self).wf(*arena),
            final(self).root_id == old(self).root_id,
            final(self).len_sp() >= old(self).len_sp(),
            final(self).entries@.take(old(self).len_sp()) == old(self).entries@,
            final(self).idents@.take(old(self).len_sp()) == old(self).idents@,
            arena.nodes@[old(self).entries@.last().widget as int].kind is Leaf ==> *final(self)
                == *old(self),
            ({
                let t = final(self).entries@.last().widget as int;
                let loc = Point2 {
                    x: (p.x - final(self).offset_x - arena.nodes@[t].rect.min.x) as i64,
                    y: (p.y - final(self).offset_y - arena.nodes@[t].rect.min.y) as i64,
                };
                arena.nodes@[t].kind is Leaf || forall|k: int|
                    0 <= k < arena.nodes@[t].children@.len() ==> !arena.nodes@[(
                    #[trigger] arena.nodes@[t].children@[k]).widget as int].rect.contains_sp(loc)
            }),
            // the descent is a pure function of the tree, the starting
            // top and the point: exactly the hit chain is pushed
            final(self).entries@ == old(self).entries@ + WidgetStack::hit_chain_sp(
                *arena,
                old(self).entries@.last().widget as int,
                Point2 {
                    x: (p.x - old(self).offset_x - arena.nodes@[old(
                        self,
                    ).entries@.last().widget as int].rect.min.x) as i64,
                    y: (p.y - old(self).offset_y - arena.nodes@[old(
                        self,
                    ).entries@.last().widget as int].rect.min.y) as i64,
                },
            ),
    {
        let ghost orig = *self;
        let ghost q0 = Point2 {
            x: (p.x - orig.offset_x - arena.nodes@[orig.entries@.last().widget as int].rect.min.x)
                as i64,
            y: (p.y - orig.offset_y - arena.nodes@[orig.entries@.last().widget as int].rect.min.y)
                as i64,
        };
        loop
            invariant
                orig == *old(self),
                self.wf(*arena),
                self.root_id == orig.root_id,
                orig.len_sp() >= 1,
                p.in_range(),
                self.len_sp() >= orig.len_sp(),
                self.entries@.take(orig.len_sp()) == orig.entries@,
                self.idents@.take(orig.len_sp()) == orig.idents@,
                arena.nodes@[orig.entries@.last().widget as int].kind is Leaf ==> *self == orig,
                q0 == (Point2 {
                    x: (p.x - orig.offset_x - arena.nodes@[orig.entries@.last().widget as int].rect.min.x)
                        as i64,
                    y: (p.y - orig.offset_y - arena.nodes@[orig.entries@.last().widget as int].rect.min.y)
                        as i64,
                }),
                orig.entries@ + WidgetStack::hit_chain_sp(
                    *arena,
                    orig.entries@.last().widget as int,
                    q0,
                ) == self.entries@ + WidgetStack::hit_chain_sp(
                    *arena,
                    self.entries@.last().widget as int,
                    Point2 {
                        x: (p.x - self.offset_x - arena.nodes@[self.entries@.last().widget as int].rect.min.x)
                            as i64,
                        y: (p.y - self.offset_y - arena.nodes@[self.entries@.last().widget as int].rect.min.y)
                            as i64,
                    },
                ),
            decreases arena.nodes@.len() - self.entries@.last().widget,
        {
            proof {
                self.lemma_len_bounded(*arena);
                WidgetStack::lemma_offset_sum_bound(*arena, self.entries@, self.len_sp() - 1);
                assert(arena.valid_handle(self.entries@.last().widget as int));
                assert(arena.wf_node(self.entries@.last().widget as int));
            }
            let top = self.top();
            let ghost qq = Point2 {
                x: (p.x - self.offset_x - arena.nodes@[self.entries@.last().widget as int].rect.min.x)
                    as i64,
                y: (p.y - self.offset_y - arena.nodes@[self.entries@.last().widget as int].rect.min.y)
                    as i64,
            };
            match arena.kind(top) {
                WidgetKind::Leaf => {
                    proof {
                        assert(WidgetStack::hit_chain_sp(*arena, top as int, qq)
                            == Seq::<StackEntry>::empty());
                        assert(self.entries@ + Seq::<StackEntry>::empty() =~= self.entries@);
                        assert(self.entries@ == orig.entries@ + WidgetStack::hit_chain_sp(
                            *arena,
                            orig.entries@.last().widget as int,
                            q0,
                        ));
                    }
                    return ;
                },
                WidgetKind::Parent => {
                    let rect = arena.rect(top);
                    let loc = Point2 {
                        x: p.x - self.offset_x - rect.min.x,
                        y: p.y - self.offset_y - rect.min.y,
                    };
                    proof {
                        assert(loc == qq);
                    }
                    let ghost pre = *self;
                    match self.try_push_point(arena, loc) {
                        Some(s) => {
                            proof {
                                assert(self.entries@.take(orig.len_sp()) =~= orig.entries@);
                                assert(self.idents@.take(orig.len_sp()) =~= orig.idents@);
                                assert(self.link_ok(*arena, self.len_sp() - 1));
                                assert(arena.wf_node(pre.entries@.last().widget as int));
                                assert(pre.entries@.last().widget < self.entries@.last().widget);
                                // the pushed child is the first containing
                                // one, so the hit chain steps to it
                                let children = arena.nodes@[pre.entries@.last().widget as int].children@;
                                WidgetStack::lemma_first_containing_some(
                                    *arena,
                                    children,
                                    loc,
                                    s.index as int,
                                );
                                let child = self.entries@.last().widget as int;
                                assert(child == children[s.index as int].widget);
                                assert(WidgetStack::hit_chain_sp(*arena, top as int, loc)
                                    == seq![
                                    StackEntry { widget: s.widget, index: s.index },
                                ] + WidgetStack::hit_chain_sp(
                                    *arena,
                                    child,
                                    Point2 {
                                        x: (loc.x - arena.nodes@[child].rect.min.x) as i64,
                                        y: (loc.y - arena.nodes@[child].rect.min.y) as i64,
                                    },
                                ));
                                // the new cumulative offset is the old one
                                // plus the old top's origin
                                WidgetStack::lemma_offset_sum_prefix(
                                    *arena,
                                    self.entries@,
                                    pre.entries@,
                                    pre.len_sp() - 1,
                                );
                                WidgetStack::lemma_offset_sum_bound(
                                    *arena,
                                    self.entries@,
                                    self.len_sp() - 1,
                                );
                                assert(self.offset_x == pre.offset_x + rect.min.x);
                                assert(self.offset_y == pre.offset_y + rect.min.y);
                                assert(pre.entries@ + WidgetStack::hit_chain_sp(
                                    *arena,
                                    top as int,
                                    loc,
                                ) =~= self.entries@ + WidgetStack::hit_chain_sp(
                                    *arena,
                                    child,
                                    Point2 {
                                        x: (loc.x - arena.nodes@[child].rect.min.x) as i64,
                                        y: (loc.y - arena.nodes@[child].rect.min.y) as i64,
                                    },
                                ));
                            }
                        },
                        None => {
                            proof {
                                let children = arena.nodes@[top as int].children@;
                                WidgetStack::lemma_first_containing_none(*arena, children, loc);
                                assert(WidgetStack::hit_chain_sp(*arena, top as int, qq)
                                    == Seq::<StackEntry>::empty());
                                assert(self.entries@ + Seq::<StackEntry>::empty()
                                    =~= self.entries@);
                                assert(self.entries@ == orig.entries@
                                    + WidgetStack::hit_chain_sp(
                                    *arena,
                                    orig.entries@.last().widget as int,
                                    q0,
                                ));
                            }
                            return ;
                        },
                    }
                },
            }
        }
    }

    /// Length of the longest common prefix of two identifier paths,
    /// compared by name.
    pub open spec fn common_prefix_len(a: Seq<WidgetIdent>, b: Seq<WidgetIdent>) -> int
        decreases a.len(),
    {
        if a.len() == 0 || b.len() == 0 {
            0
        } else if a[0]@ == b[0]@ {
            1 + WidgetStack::common_prefix_len(a.drop_first(), b.drop_first())
        } else {
            0
        }
    }

    /// Position of the first child named `id`, if any.
    pub open spec fn find_child_sp(children: Seq<ChildEntry>, id: crate::ident::IdentSp) -> Option<
        int,
    >
        decreases children.len(),
    {
        if children.len() == 0 {
            None
        } else if children[0].ident@ == id {
            Some(0int)
        } else {
            match WidgetStack::find_child_sp(children.drop_first(), id) {
                Some(i) => Some(i + 1),
                None => None,
            }
        }
    }

    /// The identifier chain `path` names an existing chain of children
    /// below node `h`, following the first matching child at each step.
    pub open spec fn descends_sp(arena: WidgetArena, h: int, path: Seq<WidgetIdent>) -> bool
        decreases path.len(),
    {
        if path.len() == 0 {
            true
        } else {
            match WidgetStack::find_child_sp(arena.nodes@[h].children@, path[0]@) {
                None => false,
                Some(c) => WidgetStack::descends_sp(
                    arena,
                    arena.nodes@[h].children@[c].widget as int,
                    path.drop_first(),
                ),
            }
        }
    }

    /// `move_to_path` succeeds exactly when the requested path shares
    /// its first name with the current root entry and the rest of it
    /// names an existing chain below the divergence point.
    pub open spec fn move_to_path_ok(
        self,
        arena: WidgetArena,
        path: Seq<WidgetIdent>,
    ) -> bool {
        let d = WidgetStack::common_prefix_len(self.idents@, path);
        d >= 1 && WidgetStack::descends_sp(
            arena,
            self.entries@[d - 1].widget as int,
            path.skip(d),
        )
    }

    proof fn lemma_find_child_some(children: Seq<ChildEntry>, id: crate::ident::IdentSp, idx: int)
        requires
            0 <= idx < children.len(),
            children[idx].ident@ == id,
            forall|k: int| 0 <= k < idx ==> children[k].ident@ != id,
        ensures
            WidgetStack::find_child_sp(children, id) == Some(idx),
        decreases idx,
    {
        if idx > 0 {
            WidgetStack::lemma_find_child_some(children.drop_first(), id, idx - 1);
        }
    }

    proof fn lemma_find_child_none(children: Seq<ChildEntry>, id: crate::ident::IdentSp)
        requires
            forall|k: int| 0 <= k < children.len() ==> (#[trigger] children[k]).ident@ != id,
        ensures
            WidgetStack::find_child_sp(children, id) is None,
        decreases children.len(),
    {
        if children.len() > 0 {
            WidgetStack::lemma_find_child_none(children.drop_first(), id);
        }
    }

    proof fn lemma_find_child_bounds(children: Seq<ChildEntry>, id: crate::ident::IdentSp)
        ensures
            match WidgetStack::find_child_sp(children, id) {
                Some(c) => 0 <= c < children.len() && children[c].ident@ == id,
                None => true,
            },
        decreases children.len(),
    {
        if children.len() > 0 && children[0].ident@ != id {
            WidgetStack::lemma_find_child_bounds(children.drop_first(), id);
        }
    }

    /// Following first matches reads only the tree's shape, never its
    /// tags, so tag-only arena changes do not affect it.
    pub proof fn lemma_descends_same_shape(
        a1: WidgetArena,
        a2: WidgetArena,
        h: int,
        path: Seq<WidgetIdent>,
    )
        requires
            a1.wf(),
            WidgetStack::same_shape(a1, a2),
            a1.valid_handle(h),
        ensures
            WidgetStack::descends_sp(a1, h, path) == WidgetStack::descends_sp(a2, h, path),
        decreases path.len(),
    {
        if path.len() > 0 {
            let children = a1.nodes@[h].children@;
            assert(a2.nodes@[h].children@ == children);
            WidgetStack::lemma_find_child_bounds(children, path[0]@);
            match WidgetStack::find_child_sp(children, path[0]@) {
                None => {},
                Some(c) => {
                    assert(a1.wf_node(h));
                    WidgetStack::lemma_descends_same_shape(
                        a1,
                        a2,
                        children[c].widget as int,
                        path.drop_first(),
                    );
                },
            }
        }
    }

    proof fn lemma_common_prefix_char(a: Seq<WidgetIdent>, b: Seq<WidgetIdent>, d: int)
        requires
            0 <= d <= a.len(),
            d <= b.len(),
            forall|i: int| 0 <= i < d ==> a[i]@ == b[i]@,
            d < a.len() && d < b.len() ==> a[d]@ != b[d]@,
        ensures
            WidgetStack::common_prefix_len(a, b) == d,
        decreases d,
    {
        if d == 0 {
        } else {
            WidgetStack::lemma_common_prefix_char(a.drop_first(), b.drop_first(), d - 1);
        }
    }

    /// Two arenas with the same tree shape: tags may differ, but
    /// length, rectangles, kinds and children agree node for node.
    pub open spec fn same_shape(a1: WidgetArena, a2: WidgetArena) -> bool {
        &&& a1.nodes@.len() == a2.nodes@.len()
        &&& forall|n: int|
            0 <= n < a1.nodes@.len() ==> {
                &&& (#[trigger] a2.nodes@[n]).rect == a1.nodes@[n].rect
                &&& a2.nodes@[n].kind == a1.nodes@[n].kind
                &&& a2.nodes@[n].children@ == a1.nodes@[n].children@
            }
    }

    /// Well-formedness of a stack survives tag-only arena changes.
    pub proof fn lemma_wf_same_shape(self, a1: WidgetArena, a2: WidgetArena)
        requires
            self.wf(a1),
            a2.wf(),
            WidgetStack::same_shape(a1, a2),
        ensures
            self.wf(a2),
    {
        assert forall|i: int| 1 <= i < self.len_sp() implies self.link_ok(a2, i) by {
            assert(self.link_ok(a1, i));
        }
        assert forall|i: int|
            0 <= i < self.len_sp() implies a2.valid_handle(
            (#[trigger] self.entries@[i]).widget as int,
        ) by {}
        WidgetStack::lemma_offset_sum_same_rects(a1, a2, self.entries@, self.len_sp() - 1);
    }

    /// Find the longest common prefix of the current path and the
    /// requested one, truncate to the divergence point, and push down
    /// the remaining identifiers; when an identifier is absent the
    /// stack is restored and the move abandoned. On success the stack's
    /// identifier path reads back exactly as the requested one.
    pub fn move_to_path(&mut self, arena: &mut WidgetArena, path: &Vec<WidgetIdent>) -> (found:
        bool)
        requires
            old(self).wf(*old(arena)),
            old(self).len_sp() >= 1,
        ensures
            final(self).wf(*final(arena)),
            final(self).root_id == old(self).root_id,
            final(self).len_sp() >= 1,
            final(arena).nodes@.len() == old(arena).nodes@.len(),
            forall|n: int|
                0 <= n < old(arena).nodes@.len() ==> final(arena).nodes@[n] == old(arena).nodes@[n]
                    || final(arena).nodes@[n] == marked_node(old(arena).nodes@[n]),
            found == old(self).move_to_path_ok(*old(arena), path@),
            found ==> {
                &&& final(self).idents@.len() == path@.len()
                &&& forall|i: int|
                    0 <= i < path@.len() ==> (#[trigger] final(self).idents@[i])@ == path@[i]@
            },
            !found ==> {
                &&& final(self).entries@ == old(self).entries@
                &&& final(self).idents@ == old(self).idents@
                &&& final(self).offset_x == old(self).offset_x
                &&& final(self).offset_y == old(self).offset_y
            },
    {
        let ghost orig_stack = *self;
        let ghost orig_arena = *arena;
        // longest common prefix of the current and the requested path
        let mut d: usize = 0;
        let path_len = path.len();
        let cur_len = self.entries.len();
        while d < path_len && d < cur_len && self.idents[d].eq_ident(&path[d])
            invariant
                *self == orig_stack,
                path_len == path@.len(),
                cur_len == self.len_sp(),
                self.len_sp() == self.idents@.len(),
                0 <= d <= path_len,
                d <= cur_len,
                forall|i: int| 0 <= i < d ==> (#[trigger] self.idents@[i])@ == path@[i]@,
            decreases path_len - d,
        {
            d += 1;
        }
        proof {
            WidgetStack::lemma_common_prefix_char(self.idents@, path@, d as int);
        }
        if d == 0 {
            return false;
        }
        // keep a copy for restoring on failure
        let saved_entries = clone_entries(&self.entries);
        let saved_idents = clone_idents(&self.idents);
        proof {
            orig_stack.lemma_len_bounded(orig_arena);
        }
        self.truncate(arena, d);
        proof {
            assert(WidgetStack::same_shape(orig_arena, *arena));
            assert(self.entries@ == orig_stack.entries@.take(d as int));
            assert(self.entries@.last() == orig_stack.entries@[d - 1]);
        }

        // push the remaining identifiers, following first matches
        let mut j: usize = d;
        let ghost diverge_handle = orig_stack.entries@[d - 1].widget as int;
        let mut failed = false;
        while j < path_len && !failed
            invariant
                orig_stack.wf(orig_arena),
                orig_stack.move_to_path_ok(orig_arena, path@) == (WidgetStack::common_prefix_len(
                    orig_stack.idents@,
                    path@,
                ) >= 1 && WidgetStack::descends_sp(
                    orig_arena,
                    diverge_handle,
                    path@.skip(WidgetStack::common_prefix_len(orig_stack.idents@, path@)),
                )),
                WidgetStack::common_prefix_len(orig_stack.idents@, path@) == d as int,
                1 <= d as int <= j as int,
                d as int <= orig_stack.len_sp(),
                diverge_handle == orig_stack.entries@[d - 1].widget as int,
                path_len == path@.len(),
                j <= path_len,
                self.wf(*arena),
                self.root_id == orig_stack.root_id,
                WidgetStack::same_shape(orig_arena, *arena),
                arena.wf(),
                !failed ==> self.len_sp() == j as int,
                !failed ==> forall|i: int|
                    0 <= i < j ==> (#[trigger] self.idents@[i])@ == path@[i]@,
                !failed ==> self.len_sp() >= 1,
                !failed ==> (WidgetStack::descends_sp(
                    *arena,
                    self.entries@.last().widget as int,
                    path@.skip(j as int),
                ) == WidgetStack::descends_sp(*arena, diverge_handle, path@.skip(d as int))),
                failed ==> !WidgetStack::descends_sp(*arena, diverge_handle, path@.skip(d as int)),
                forall|n: int|
                    0 <= n < orig_arena.nodes@.len() ==> arena.nodes@[n] == orig_arena.nodes@[n]
                        || arena.nodes@[n] == marked_node(orig_arena.nodes@[n]),
            decreases path_len - j + (if failed { 0int } else { 1int }),
        {
            let ghost pre = *self;
            let top = self.top();
            proof {
                self.lemma_len_bounded(*arena);
            }
            match self.try_push_ident(arena, &path[j]) {
                Some(s) => {
                    proof {
                        let children = arena.nodes@[pre.entries@.last().widget as int].children@;
                        WidgetStack::lemma_find_child_some(children, path@[j as int]@, s.index as int);
                        assert(path@.skip(j as int)[0] == path@[j as int]);
                        assert(path@.skip(j as int).drop_first() =~= path@.skip(j as int + 1));
                        assert(s.ident@ == path@[j as int]@);
                    }
                    j += 1;
                },
                None => {
                    proof {
                        let children = arena.nodes@[pre.entries@.last().widget as int].children@;
                        WidgetStack::lemma_find_child_none(children, path@[j as int]@);
                        assert(path@.skip(j as int)[0] == path@[j as int]);
                    }
                    failed = true;
                },
            }
        }
        if !failed {
            proof {
                assert(path@.skip(path_len as int).len() == 0);
                assert(WidgetStack::descends_sp(*arena, diverge_handle, path@.skip(d as int)));
                WidgetStack::lemma_descends_same_shape(
                    orig_arena,
                    *arena,
                    diverge_handle,
                    path@.skip(d as int),
                );
            }
            return true;
        }
        // restore the original path; dirt already propagated stays
        self.entries = saved_entries;
        self.idents = saved_idents;
        let new_off = recompute_offset(arena, &self.entries);
        self.offset_x = new_off.x;
        self.offset_y = new_off.y;
        proof {
            assert(self.entries@ == orig_stack.entries@);
            assert(self.idents@ == orig_stack.idents@);
            WidgetStack::lemma_descends_same_shape(
                orig_arena,
                *arena,
                diverge_handle,
                path@.skip(d as int),
            );
            orig_stack.lemma_wf_same_shape(orig_arena, *arena);
            assert(orig_stack.wf(*arena));
            WidgetStack::lemma_offset_sum_same_rects(
                orig_arena,
                *arena,
                orig_stack.entries@,
                orig_stack.len_sp() - 1,
            );
            assert forall|i: int| 1 <= i < self.len_sp() implies self.link_ok(*arena, i) by {
                assert(orig_stack.link_ok(*arena, i));
            }
            assert forall|i: int|
                0 <= i < self.len_sp() implies arena.valid_handle(
                (#[trigger] self.entries@[i]).widget as int,
            ) by {
                assert(self.entries@[i] == orig_stack.entries@[i]);
            }
            assert(self.wf(*arena));
        }
        false
    }

    /// Position of the first child whose interest summary claims one of
    /// `flags`, if any.
    pub open spec fn first_claiming_sp(
        arena: WidgetArena,
        children: Seq<ChildEntry>,
        flags: ChildEventRecv,
    ) -> Option<int>
        decreases children.len(),
    {
        if children.len() == 0 {
            None
        } else if arena.nodes@[children[0].widget as int].update_tag.summary_sp().intersects_sp(
            flags,
        ) {
            Some(0int)
        } else {
            match WidgetStack::first_claiming_sp(arena, children.drop_first(), flags) {
                Some(i) => Some(i + 1),
                None => None,
            }
        }
    }

    /// A claiming chain exists: from `h`, following the first child
    /// whose summary claims one of `flags` at every step, a node whose
    /// own interests claim one is reached.
    pub open spec fn flags_reach_sp(arena: WidgetArena, h: int, flags: ChildEventRecv) -> bool
        decreases arena.nodes@.len() - h,
    {
        if !(0 <= h < arena.nodes@.len()) {
            false
        } else if arena.nodes@[h].update_tag.own_flags_sp().intersects_sp(flags) {
            true
        } else {
            match WidgetStack::first_claiming_sp(arena, arena.nodes@[h].children@, flags) {
                None => false,
                Some(c) => {
                    let child = arena.nodes@[h].children@[c].widget as int;
                    if h < child < arena.nodes@.len() {
                        WidgetStack::flags_reach_sp(arena, child, flags)
                    } else {
                        false
                    }
                },
            }
        }
    }

    proof fn lemma_first_claiming_some(
        arena: WidgetArena,
        children: Seq<ChildEntry>,
        flags: ChildEventRecv,
        idx: int,
    )
        requires
            0 <= idx < children.len(),
            arena.nodes@[children[idx].widget as int].update_tag.summary_sp().intersects_sp(flags),
            forall|k: int|
                0 <= k < idx ==> !arena.nodes@[(#[trigger] children[k]).widget as int].update_tag.summary_sp().intersects_sp(
                    flags,
                ),
        ensures
            WidgetStack::first_claiming_sp(arena, children, flags) == Some(idx),
        decreases idx,
    {
        if idx > 0 {
            WidgetStack::lemma_first_claiming_some(arena, children.drop_first(), flags, idx - 1);
        }
    }

    proof fn lemma_first_claiming_none(
        arena: WidgetArena,
        children: Seq<ChildEntry>,
        flags: ChildEventRecv,
    )
        requires
            forall|k: int|
                0 <= k < children.len() ==> !arena.nodes@[(#[trigger] children[k]).widget as int].update_tag.summary_sp().intersects_sp(
                    flags,
                ),
        ensures
            WidgetStack::first_claiming_sp(arena, children, flags) is None,
        decreases children.len(),
    {
        if children.len() > 0 {
            WidgetStack::lemma_first_claiming_none(arena, children.drop_first(), flags);
        }
    }

    proof fn lemma_first_claiming_bounds(
        arena: WidgetArena,
        children: Seq<ChildEntry>,
        flags: ChildEventRecv,
    )
        ensures
            match WidgetStack::first_claiming_sp(arena, children, flags) {
                Some(c) => 0 <= c < children.len()
                    && arena.nodes@[children[c].widget as int].update_tag.summary_sp().intersects_sp(
                    flags,
                ),
                None => true,
            },
        decreases children.len(),
    {
        if children.len() > 0 && !arena.nodes@[children[0].widget as int].update_tag.summary_sp().intersects_sp(
            flags,
        ) {
            WidgetStack::lemma_first_claiming_bounds(arena, children.drop_first(), flags);
        }
    }

    /// Two arenas whose trees and per-node interests agree; the
    /// claiming-chain search reads nothing else.
    pub open spec fn same_interests(a1: WidgetArena, a2: WidgetArena) -> bool {
        &&& a1.nodes@.len() == a2.nodes@.len()
        &&& forall|n: int|
            0 <= n < a1.nodes@.len() ==> {
                &&& (#[trigger] a2.nodes@[n]).children@ == a1.nodes@[n].children@
                &&& a2.nodes@[n].update_tag.child_event_recv
                    == a1.nodes@[n].update_tag.child_event_recv
                &&& a2.nodes@[n].update_tag.mouse_state == a1.nodes@[n].update_tag.mouse_state
                &&& a2.nodes@[n].update_tag.has_keyboard_focus
                    == a1.nodes@[n].update_tag.has_keyboard_focus
            }
    }

    proof fn lemma_first_claiming_same_interests(
        a1: WidgetArena,
        a2: WidgetArena,
        children: Seq<ChildEntry>,
        flags: ChildEventRecv,
    )
        requires
            WidgetStack::same_interests(a1, a2),
            forall|i: int|
                0 <= i < children.len() ==> 0 <= (#[trigger] children[i]).widget
                    < a1.nodes@.len(),
        ensures
            WidgetStack::first_claiming_sp(a1, children, flags) == WidgetStack::first_claiming_sp(
                a2,
                children,
                flags,
            ),
        decreases children.len(),
    {
        if children.len() > 0 {
            let w = children[0].widget as int;
            assert(a2.nodes@[w].update_tag.summary_sp() == a1.nodes@[w].update_tag.summary_sp());
            WidgetStack::lemma_first_claiming_same_interests(
                a1,
                a2,
                children.drop_first(),
                flags,
            );
        }
    }

    /// Claiming-chain existence reads only the tree's shape and the
    /// per-node interests, so any change that keeps both keeps it.
    pub proof fn lemma_flags_reach_same_interests(
        a1: WidgetArena,
        a2: WidgetArena,
        h: int,
        flags: ChildEventRecv,
    )
        requires
            a1.wf(),
            WidgetStack::same_interests(a1, a2),
            0 <= h < a1.nodes@.len(),
        ensures
            WidgetStack::flags_reach_sp(a1, h, flags) == WidgetStack::flags_reach_sp(
                a2,
                h,
                flags,
            ),
        decreases a1.nodes@.len() - h,
    {
        assert(a1.wf_node(h));
        assert(a2.nodes@[h].update_tag.own_flags_sp() == a1.nodes@[h].update_tag.own_flags_sp());
        let children = a1.nodes@[h].children@;
        assert(a2.nodes@[h].children@ == children);
        WidgetStack::lemma_first_claiming_same_interests(a1, a2, children, flags);
        WidgetStack::lemma_first_claiming_bounds(a1, children, flags);
        match WidgetStack::first_claiming_sp(a1, children, flags) {
            None => {},
            Some(c) => {
                WidgetStack::lemma_flags_reach_same_interests(
                    a1,
                    a2,
                    children[c].widget as int,
                    flags,
                );
            },
        }
    }

    /// Search for a node whose own interests intersect `flags`, pruned
    /// by the per-node interest summaries: truncate to the deepest
    /// stack level whose summary claims one of the flags, then descend
    /// through the first claiming child at every step. True exactly
    /// when the search ended on such a node, which is then the top.
    #[verifier::loop_isolation(false)]
    #[verifier::rlimit(100)]
    pub fn move_over_flags(&mut self, arena: &mut WidgetArena, flags: ChildEventRecv) -> (found:
        bool)
        requires
            old(self).wf(*old(arena)),
            old(self).len_sp() >= 1,
        ensures
            final(self).wf(*final(arena)),
            final(self).root_id == old(self).root_id,
            final(self).len_sp() >= 1,
            final(arena).nodes@.len() == old(arena).nodes@.len(),
            forall|n: int|
                0 <= n < old(arena).nodes@.len() ==> final(arena).nodes@[n] == old(arena).nodes@[n]
                    || final(arena).nodes@[n] == marked_node(old(arena).nodes@[n]),
            found ==> entry_tag(*final(arena), final(self).entries@.last()).own_flags_sp().intersects_sp(
                flags,
            ),
            // the search cannot miss when the deepest node itself holds
            // one of the requested interests
            entry_tag(*old(arena), old(self).entries@.last()).own_flags_sp().intersects_sp(flags)
                ==> found && *final(self) == *old(self) && *final(arena) == *old(arena),
            // the search succeeds exactly when the deepest level whose
            // summary claims one of the flags roots a claiming chain
            forall|i: int|
                (0 <= i < old(self).len_sp() && entry_tag(
                    *old(arena),
                    #[trigger] old(self).entries@[i],
                ).summary_sp().intersects_sp(flags) && (forall|j: int|
                    i < j < old(self).len_sp() ==> !entry_tag(
                        *old(arena),
                        #[trigger] old(self).entries@[j],
                    ).summary_sp().intersects_sp(flags))) ==> found
                    == WidgetStack::flags_reach_sp(
                    *old(arena),
                    old(self).entries@[i].widget as int,
                    flags,
                ),
            // with no claiming level the search fails and touches nothing
            (forall|i: int|
                0 <= i < old(self).len_sp() ==> !entry_tag(
                    *old(arena),
                    #[trigger] old(self).entries@[i],
                ).summary_sp().intersects_sp(flags)) ==> (!found && *final(self) == *old(self)
                && *final(arena) == *old(arena)),
    {
        let ghost top_own_hyp = entry_tag(*old(arena), old(self).entries@.last()).own_flags_sp().intersects_sp(
            flags,
        );
        let ghost orig_arena = *arena;
        // deepest stack level whose summary claims one of the flags
        let mut level: usize = self.entries.len();
        let mut claimed = false;
        while level > 0 && !claimed
            invariant
                self.wf(*arena),
                0 <= level <= self.len_sp(),
                claimed ==> level < self.len_sp() && entry_tag(
                    *arena,
                    self.entries@[level as int],
                ).summary_sp().intersects_sp(flags),
                forall|j: int|
                    level + (if claimed {
                        1int
                    } else {
                        0int
                    }) <= j < self.len_sp() ==> !entry_tag(
                        *arena,
                        #[trigger] self.entries@[j],
                    ).summary_sp().intersects_sp(flags),
                top_own_hyp ==> ((claimed && level == self.len_sp() - 1) || (!claimed && level
                    == self.len_sp())),
            decreases level + (if claimed {
                0int
            } else {
                1int
            }),
        {
            if arena.tag(self.entries[level - 1].widget).summary().intersects(flags) {
                level = level - 1;
                claimed = true;
            } else {
                level = level - 1;
            }
        }
        if !claimed {
            proof {
                assert(!top_own_hyp);
            }
            return false;
        }
        let ghost lvl = level as int;
        let ghost reach0 = WidgetStack::flags_reach_sp(
            orig_arena,
            old(self).entries@[lvl].widget as int,
            flags,
        );
        self.truncate(arena, level + 1);
        let ghost trunc_arena = *arena;
        proof {
            if top_own_hyp {
                assert(*self == *old(self) && *arena == orig_arena);
            }
            // truncation only marks tags dirty, which keeps every
            // interest field, so the claiming chain is unaffected
            assert(WidgetStack::same_interests(orig_arena, *arena)) by {
                assert forall|n: int| 0 <= n < orig_arena.nodes@.len() implies {
                    &&& (#[trigger] arena.nodes@[n]).children@ == orig_arena.nodes@[n].children@
                    &&& arena.nodes@[n].update_tag.child_event_recv
                        == orig_arena.nodes@[n].update_tag.child_event_recv
                    &&& arena.nodes@[n].update_tag.mouse_state
                        == orig_arena.nodes@[n].update_tag.mouse_state
                    &&& arena.nodes@[n].update_tag.has_keyboard_focus
                        == orig_arena.nodes@[n].update_tag.has_keyboard_focus
                } by {
                    assert(arena.nodes@[n] == orig_arena.nodes@[n] || arena.nodes@[n]
                        == marked_node(orig_arena.nodes@[n]));
                }
            }
            WidgetStack::lemma_flags_reach_same_interests(
                orig_arena,
                *arena,
                old(self).entries@[lvl].widget as int,
                flags,
            );
            assert(self.entries@.last() == old(self).entries@[lvl]);
            assert(WidgetStack::flags_reach_sp(
                *arena,
                self.entries@.last().widget as int,
                flags,
            ) == reach0);
        }

        // descend through claiming children to the claiming node
        loop
            invariant
                orig_arena == *old(arena),
                self.wf(*arena),
                self.root_id == old(self).root_id,
                self.len_sp() >= 1,
                top_own_hyp ==> (*self == *old(self) && *arena == orig_arena),
                *arena == trunc_arena,
                trunc_arena.nodes@.len() == orig_arena.nodes@.len(),
                forall|n: int|
                    0 <= n < orig_arena.nodes@.len() ==> trunc_arena.nodes@[n]
                        == orig_arena.nodes@[n] || trunc_arena.nodes@[n] == marked_node(
                        orig_arena.nodes@[n],
                    ),
                WidgetStack::flags_reach_sp(*arena, self.entries@.last().widget as int, flags)
                    == reach0,
            decreases arena.nodes@.len() - self.entries@.last().widget,
        {
            proof {
                self.lemma_len_bounded(*arena);
            }
            let top = self.top();
            if arena.tag(top).own_flags().intersects(flags) {
                proof {
                    assert(WidgetStack::flags_reach_sp(*arena, top as int, flags));
                    assert forall|i: int|
                        (0 <= i < old(self).len_sp() && entry_tag(
                            *old(arena),
                            #[trigger] old(self).entries@[i],
                        ).summary_sp().intersects_sp(flags) && (forall|j: int|
                            i < j < old(self).len_sp() ==> !entry_tag(
                                *old(arena),
                                #[trigger] old(self).entries@[j],
                            ).summary_sp().intersects_sp(flags))) implies true
                        == WidgetStack::flags_reach_sp(
                        *old(arena),
                        old(self).entries@[i].widget as int,
                        flags,
                    ) by {
                        if i < lvl {
                            assert(!entry_tag(
                                *old(arena),
                                old(self).entries@[lvl],
                            ).summary_sp().intersects_sp(flags));
                            assert(false);
                        }
                        if i > lvl {
                            assert(!entry_tag(
                                *old(arena),
                                old(self).entries@[i],
                            ).summary_sp().intersects_sp(flags));
                            assert(false);
                        }
                        assert(i == lvl);
                    }
                }
                return true;
            }
            let num = arena.num_children(top);
            let mut k: usize = 0;
            let mut child_index: Option<usize> = None;
            while k < num && child_index.is_none()
                invariant
                    self.wf(*arena),
                    self.len_sp() >= 1,
                    top == self.entries@.last().widget,
                    arena.valid_handle(top as int),
                    num == arena.nodes@[top as int].children@.len(),
                    0 <= k <= num,
                    forall|k2: int|
                        0 <= k2 < k ==> !arena.nodes@[(#[trigger] arena.nodes@[top as int].children@[k2]).widget as int].update_tag.summary_sp().intersects_sp(
                            flags,
                        ),
                    match child_index {
                        Some(c) => c < num
                            && arena.nodes@[arena.nodes@[top as int].children@[c as int].widget as int].update_tag.summary_sp().intersects_sp(
                            flags,
                        ) && (forall|k2: int|
                            0 <= k2 < c ==> !arena.nodes@[(
                            #[trigger] arena.nodes@[top as int].children@[k2]).widget as int].update_tag.summary_sp().intersects_sp(
                                flags,
                            )),
                        None => true,
                    },
                decreases num - k + (if child_index is Some {
                    0int
                } else {
                    1int
                }),
            {
                proof {
                    assert(arena.wf_node(top as int));
                }
                let entry_widget = match arena.child_by_index(top, k) {
                    Some(s) => s.widget,
                    None => 0,
                };
                if arena.tag(entry_widget).summary().intersects(flags) {
                    child_index = Some(k);
                } else {
                    k += 1;
                }
            }
            match child_index {
                Some(c) => {
                    let ghost pre = *self;
                    proof {
                        WidgetStack::lemma_first_claiming_some(
                            *arena,
                            arena.nodes@[top as int].children@,
                            flags,
                            c as int,
                        );
                        assert(arena.wf_node(top as int));
                    }
                    let pushed = self.try_push_index(arena, c);
                    proof {
                        assert(pushed is Some);
                        assert(self.link_ok(*arena, self.len_sp() - 1));
                        assert(arena.wf_node(pre.entries@.last().widget as int));
                        assert(pre.entries@.last().widget < self.entries@.last().widget);
                        // the chain steps to the first claiming child
                        assert(self.entries@.last().widget == arena.nodes@[top as int].children@[c as int].widget);
                        assert(WidgetStack::flags_reach_sp(*arena, top as int, flags)
                            == WidgetStack::flags_reach_sp(
                            *arena,
                            self.entries@.last().widget as int,
                            flags,
                        ));
                    }
                },
                None => {
                    proof {
                        WidgetStack::lemma_first_claiming_none(
                            *arena,
                            arena.nodes@[top as int].children@,
                            flags,
                        );
                        assert(!WidgetStack::flags_reach_sp(*arena, top as int, flags));
                        assert(!reach0);
                        assert forall|i: int|
                            (0 <= i < old(self).len_sp() && entry_tag(
                                *old(arena),
                                #[trigger] old(self).entries@[i],
                            ).summary_sp().intersects_sp(flags) && (forall|j: int|
                                i < j < old(self).len_sp() ==> !entry_tag(
                                    *old(arena),
                                    #[trigger] old(self).entries@[j],
                                ).summary_sp().intersects_sp(flags))) implies false
                            == WidgetStack::flags_reach_sp(
                            *old(arena),
                            old(self).entries@[i].widget as int,
                            flags,
                        ) by {
                            if i < lvl {
                                assert(!entry_tag(
                                    *old(arena),
                                    old(self).entries@[lvl],
                                ).summary_sp().intersects_sp(flags));
                                assert(false);
                            }
                            if i > lvl {
                                assert(!entry_tag(
                                    *old(arena),
                                    old(self).entries@[i],
                                ).summary_sp().intersects_sp(flags));
                                assert(false);
                            }
                            assert(i == lvl);
                        }
                    }
                    return false;
                },
            }
        }
    }

    /// Move to the node the pointer currently hovers, if the summaries
    /// lead to one.
    pub fn move_to_hover(&mut self, arena: &mut WidgetArena) -> (found: bool)
        requires
            old(self).wf(*old(arena)),
            old(self).len_sp() >= 1,
        ensures
            final(self).wf(*final(arena)),
            final(self).root_id == old(self).root_id,
            final(self).len_sp() >= 1,
            final(arena).nodes@.len() == old(arena).nodes@.len(),
            forall|n: int|
                0 <= n < old(arena).nodes@.len() ==> final(arena).nodes@[n] == old(arena).nodes@[n]
                    || final(arena).nodes@[n] == marked_node(old(arena).nodes@[n]),
            found ==> entry_tag(
                *final(arena),
                final(self).entries@.last(),
            ).mouse_state.is_hovering_sp(),
            entry_tag(*old(arena), old(self).entries@.last()).mouse_state.is_hovering_sp()
                ==> found,
    {
        let mut mask = ChildEventRecv::empty();
        mask.mouse_hover = true;
        proof {
            let own = entry_tag(*arena, self.entries@.last()).own_flags_sp();
            crate::cer::lemma_from_mbseq_buttons_only(
                entry_tag(*arena, self.entries@.last()).mouse_state.mbseq_sp(),
            );
            assert(own.intersect_sp(mask).mouse_hover == own.mouse_hover);
        }
        let found = self.move_over_flags(arena, mask);
        proof {
            if found {
                let own = entry_tag(*arena, self.entries@.last()).own_flags_sp();
                crate::cer::lemma_from_mbseq_buttons_only(
                    entry_tag(*arena, self.entries@.last()).mouse_state.mbseq_sp(),
                );
                assert(own.intersect_sp(mask).mouse_hover == own.mouse_hover);
            }
        }
        found
    }

    /// Move to the node holding keyboard focus, if the summaries lead
    /// to one, and return its handle.
    pub fn move_to_keyboard_focus(&mut self, arena: &mut WidgetArena) -> (r: Option<usize>)
        requires
            old(self).wf(*old(arena)),
            old(self).len_sp() >= 1,
        ensures
            final(self).wf(*final(arena)),
            final(self).root_id == old(self).root_id,
            final(self).len_sp() >= 1,
            final(arena).nodes@.len() == old(arena).nodes@.len(),
            forall|n: int|
                0 <= n < old(arena).nodes@.len() ==> final(arena).nodes@[n] == old(arena).nodes@[n]
                    || final(arena).nodes@[n] == marked_node(old(arena).nodes@[n]),
            match r {
                Some(h) => h == final(self).entries@.last().widget && final(arena).nodes@[h as int].update_tag.has_keyboard_focus,
                None => true,
            },
            entry_tag(*old(arena), old(self).entries@.last()).has_keyboard_focus ==> r is Some,
    {
        let mut mask = ChildEventRecv::empty();
        mask.keyboard = true;
        proof {
            let own = entry_tag(*arena, self.entries@.last()).own_flags_sp();
            crate::cer::lemma_from_mbseq_buttons_only(
                entry_tag(*arena, self.entries@.last()).mouse_state.mbseq_sp(),
            );
            assert(own.intersect_sp(mask).keyboard == own.keyboard);
        }
        if self.move_over_flags(arena, mask) {
            proof {
                let own = entry_tag(*arena, self.entries@.last()).own_flags_sp();
                crate::cer::lemma_from_mbseq_buttons_only(
                    entry_tag(*arena, self.entries@.last()).mouse_state.mbseq_sp(),
                );
                assert(own.intersect_sp(mask).keyboard == own.keyboard);
            }
            Some(self.top())
        } else {
            None
        }
    }

    /// Move sideways to the sibling at `sibling_index` under the same
    /// parent. At the root only position 0 exists. On a miss the path
    /// is left as it was and the overrun side reported.
    pub fn move_to_sibling_index(&mut self, arena: &mut WidgetArena, sibling_index: usize) -> (r:
        Result<usize, core::cmp::Ordering>)
        requires
            old(self).wf(*old(arena)),
            old(self).len_sp() >= 1,
        ensures
            final(self).wf(*final(arena)),
            final(self).root_id == old(self).root_id,
            final(self).len_sp() == old(self).len_sp(),
            final(arena).nodes@.len() == old(arena).nodes@.len(),
            forall|n: int|
                0 <= n < old(arena).nodes@.len() ==> final(arena).nodes@[n] == old(arena).nodes@[n]
                    || final(arena).nodes@[n] == marked_node(old(arena).nodes@[n]),
            match r {
                Ok(h) => {
                    &&& h == final(self).entries@.last().widget
                    &&& final(self).entries@.last().index == sibling_index
                    &&& old(self).len_sp() == 1 ==> sibling_index == 0 && *final(self) == *old(
                        self,
                    )
                },
                Err(o) => {
                    &&& final(self).entries@ == old(self).entries@
                    &&& final(self).idents@ == old(self).idents@
                    &&& o is Greater
                    &&& old(self).len_sp() > 1 ==> sibling_index >= old(arena).nodes@[old(
                        self,
                    ).entries@[old(self).len_sp() - 2].widget as int].children@.len()
                    &&& old(self).len_sp() == 1 ==> sibling_index > 0
                },
            },
            // the identity move always succeeds, at the root too
            old(self).len_sp() == 1 && sibling_index == 0 ==> r is Ok,
    {
        if self.entries.len() == 1 {
            if sibling_index == 0 {
                return Ok(self.top());
            } else {
                return Err(core::cmp::Ordering::Greater);
            }
        }
        let ghost orig_stack = *self;
        let ghost orig_arena = *arena;
        let old_index = self.top_index();
        let ghost old_entry = self.entries@.last();
        let ghost old_ident = self.idents@.last();
        self.pop(arena);
        proof {
            assert(orig_stack.link_ok(orig_arena, orig_stack.len_sp() - 1));
            assert(arena.nodes@[self.entries@.last().widget as int].children@ == orig_arena.nodes@[
                self.entries@.last().widget as int].children@);
        }
        match self.try_push_index(arena, sibling_index) {
            Some(s) => {
                proof {
                    assert(self.entries@.last().index == sibling_index);
                }
                Ok(s.widget)
            },
            None => {
                let restored = self.try_push_index(arena, old_index);
                proof {
                    assert(restored is Some);
                    assert(self.entries@ =~= orig_stack.entries@);
                    assert(self.idents@ =~= orig_stack.idents@);
                }
                Err(core::cmp::Ordering::Greater)
            },
        }
    }

    /// Move sideways by a signed distance among the siblings of the
    /// current top. On a miss the path is left as it was and the
    /// overrun side reported.
    pub fn move_to_sibling_delta(&mut self, arena: &mut WidgetArena, sibling_dist: isize) -> (r:
        Result<usize, core::cmp::Ordering>)
        requires
            old(self).wf(*old(arena)),
            old(self).len_sp() >= 1,
        ensures
            final(self).wf(*final(arena)),
            final(self).root_id == old(self).root_id,
            final(self).len_sp() == old(self).len_sp(),
            final(arena).nodes@.len() == old(arena).nodes@.len(),
            forall|n: int|
                0 <= n < old(arena).nodes@.len() ==> final(arena).nodes@[n] == old(arena).nodes@[n]
                    || final(arena).nodes@[n] == marked_node(old(arena).nodes@[n]),
            sibling_dist == 0 ==> (r == Ok::<usize, core::cmp::Ordering>(
                old(self).entries@.last().widget,
            ) && *final(self) == *old(self) && *final(arena) == *old(arena)),
            match r {
                Ok(h) => {
                    &&& h == final(self).entries@.last().widget
                    &&& final(self).entries@.last().index == old(self).entries@.last().index
                        + sibling_dist
                },
                Err(o) => {
                    &&& final(self).entries@ == old(self).entries@
                    &&& final(self).idents@ == old(self).idents@
                    // only the two overrun sides are ever reported, so an
                    // in-bounds move is owed success
                    &&& (o is Less || o is Greater)
                    &&& (o is Less ==> old(self).entries@.last().index + sibling_dist < 0)
                    // an overrun above is owed only past the last sibling,
                    // so an in-bounds move is owed success
                    &&& (o is Greater && old(self).len_sp() > 1 && old(
                        self,
                    ).entries@.last().index + sibling_dist <= usize::MAX ==> old(
                        self,
                    ).entries@.last().index + sibling_dist >= old(arena).nodes@[old(
                        self,
                    ).entries@[old(self).len_sp() - 2].widget as int].children@.len())
                    &&& (o is Greater && old(self).len_sp() == 1 ==> sibling_dist > 0)
                },
            },
    {
        if sibling_dist == 0 {
            return Ok(self.top());
        }
        let old_index = self.top_index();
        proof {
            self.lemma_len_bounded(*arena);
        }
        if self.entries.len() == 1 {
            if sibling_dist < 0 {
                return Err(core::cmp::Ordering::Less);
            } else {
                return Err(core::cmp::Ordering::Greater);
            }
        }
        // the sibling position, without wrapping at the type bounds
        let target: i128 = old_index as i128 + sibling_dist as i128;
        if target < 0 {
            proof {
                assert(old(self).entries@.last().index + sibling_dist < 0);
            }
            return Err(core::cmp::Ordering::Less);
        }
        if target > usize::MAX as i128 {
            return Err(core::cmp::Ordering::Greater);
        }
        match self.move_to_sibling_index(arena, target as usize) {
            Ok(h) => Ok(h),
            Err(o) => Err(o),
        }
    }

    /// Unwind the whole path to the root, propagating dirtiness at
    /// every step, and report the handles visited: deepest first, the
    /// root last (which stays on the stack).
    #[verifier::loop_isolation(false)]
    #[verifier::rlimit(60)]
    pub fn drain_to_root(&mut self, arena: &mut WidgetArena) -> (r: Vec<usize>)
        requires
            old(self).wf(*old(arena)),
            old(self).len_sp() >= 1,
        ensures
            final(self).wf(*final(arena)),
            final(self).root_id == old(self).root_id,
            final(self).len_sp() == 1,
            final(self).entries@ == old(self).entries@.take(1),
            final(self).idents@ == old(self).idents@.take(1),
            final(arena).nodes@.len() == old(arena).nodes@.len(),
            forall|n: int|
                0 <= n < old(arena).nodes@.len() ==> final(arena).nodes@[n] == old(arena).nodes@[n]
                    || final(arena).nodes@[n] == marked_node(old(arena).nodes@[n]),
            r@.len() == old(self).len_sp(),
            forall|i: int|
                0 <= i < r@.len() ==> r@[i] == old(self).entries@[old(self).len_sp() - 1
                    - i].widget,
    {
        let ghost orig = *self;
        let ghost old_len = self.len_sp();
        let mut r: Vec<usize> = Vec::new();
        loop
            invariant
                self.wf(*arena),
                self.root_id == orig.root_id,
                1 <= self.len_sp() <= old_len,
                self.entries@ == orig.entries@.take(self.len_sp()),
                self.idents@ == orig.idents@.take(self.len_sp()),
                arena.nodes@.len() == old(arena).nodes@.len(),
                forall|n: int|
                    0 <= n < old(arena).nodes@.len() ==> arena.nodes@[n] == old(arena).nodes@[n]
                        || arena.nodes@[n] == marked_node(old(arena).nodes@[n]),
                r@.len() == old_len - self.len_sp(),
                forall|i: int|
                    0 <= i < r@.len() ==> r@[i] == orig.entries@[old_len - 1 - i].widget,
            decreases self.len_sp(),
        {
            r.push(self.top());
            if self.entries.len() == 1 {
                return r;
            }
            let ghost pre_arena = *arena;
            self.pop(arena);
            proof {
                assert(self.entries@ =~= orig.entries@.take(self.len_sp()));
                assert(self.idents@ =~= orig.idents@.take(self.len_sp()));
                assert forall|n: int|
                    0 <= n < old(arena).nodes@.len() implies arena.nodes@[n] == old(
                    arena,
                ).nodes@[n] || arena.nodes@[n] == marked_node(old(arena).nodes@[n]) by {
                    if arena.nodes@[n] != pre_arena.nodes@[n] {
                        assert(arena.nodes@[n] == marked_node(pre_arena.nodes@[n]));
                        if pre_arena.nodes@[n] == marked_node(old(arena).nodes@[n]) {
                            assert(arena.nodes@[n] == marked_node(old(arena).nodes@[n]));
                        }
                    }
                }
            }
        }
    }

    /// Throw the whole path away without popping: used when the active
    /// path is invalidated wholesale rather than unwound.
    pub fn clear(&mut self)
        ensures
            final(self).entries@.len() == 0,
            final(self).idents@.len() == 0,
            final(self).offset_x == 0,
            final(self).offset_y == 0,
            final(self).root_id == old(self).root_id,
    {
        self.entries.clear();
        self.idents.clear();
        self.offset_x = 0;
        self.offset_y = 0;
    }
}

} // verus!
