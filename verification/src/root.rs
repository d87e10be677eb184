//! The root of the toolkit: owns the tree, the active hit-test path,
//! the action queue, the pointer state, and turns each window event
//! into the exact sequence of node events owed to the tree.

use vstd::prelude::*;
use std::collections::VecDeque;
use crate::arena::WidgetArena;
use crate::arena::WidgetKind;
use crate::bounds::BoundBox;
use crate::bounds::DimsRect;
use crate::bounds::Point2;
use crate::bounds::segment_enter;
use crate::bounds::segment_exit;
use crate::buttons::MouseButton;
use crate::buttons::MouseButtonSequence;
use crate::cer::ChildEventRecv;
use crate::ident::WidgetIdent;
use crate::render::LayoutSolver;
use crate::render::RenderStep;
use crate::render::render_children;
use crate::stack::StackEntry;
use crate::stack::WidgetStack;
use crate::stack::entry_tag;
use crate::stack::marked_node;
use crate::tags::IdRegistry;
use crate::tags::MouseState;
use crate::tags::NO_GENERATION;
use crate::tags::RootID;

verus! {

/// A normalized input event, as the platform layer reports it.
#[derive(Debug, Clone, Copy, PartialEq, Eq)]
pub enum WindowEvent {
    MouseMove(Point2),
    MouseEnter(Point2),
    MouseExit(Point2),
    MouseDown(MouseButton),
    MouseUp(MouseButton),
    WindowResize(DimsRect),
}

/// A fine-grained event owed to one node, with positions in the frame
/// the node's own rectangle lives in (its parent's interior).
#[derive(Debug, Clone, PartialEq, Eq)]
pub enum WidgetEvent {
    MouseMove {
        old_pos: Point2,
        new_pos: Point2,
        in_widget: bool,
        buttons_down: MouseButtonSequence,
        buttons_down_in_widget: MouseButtonSequence,
    },
    MouseEnter {
        enter_pos: Point2,
        buttons_down: MouseButtonSequence,
        buttons_down_in_widget: MouseButtonSequence,
    },
    MouseExit {
        exit_pos: Point2,
        buttons_down: MouseButtonSequence,
        buttons_down_in_widget: MouseButtonSequence,
    },
    MouseEnterChild {
        enter_pos: Point2,
        child: WidgetIdent,
        buttons_down: MouseButtonSequence,
        buttons_down_in_widget: MouseButtonSequence,
    },
    MouseDown { pos: Point2, button: MouseButton },
    MouseUp { pos: Point2, in_widget: bool, button: MouseButton },
}

impl WidgetEvent {
    pub open spec fn is_mouse_move_sp(self) -> bool {
        self is MouseMove
    }

    /// Where a motion event started, in the target's parent frame.
    pub open spec fn move_old_sp(self) -> Point2 {
        match self {
            WidgetEvent::MouseMove { old_pos, .. } => old_pos,
            _ => Point2 { x: 0, y: 0 },
        }
    }

    /// Where a motion event ended, in the target's parent frame.
    pub open spec fn move_new_sp(self) -> Point2 {
        match self {
            WidgetEvent::MouseMove { new_pos, .. } => new_pos,
            _ => Point2 { x: 0, y: 0 },
        }
    }

    pub open spec fn move_in_widget_sp(self) -> bool {
        match self {
            WidgetEvent::MouseMove { in_widget, .. } => in_widget,
            _ => false,
        }
    }

    /// Where the pointer left the target, in its parent frame.
    pub open spec fn exit_pos_sp(self) -> Point2 {
        match self {
            WidgetEvent::MouseExit { exit_pos, .. } => exit_pos,
            _ => Point2 { x: 0, y: 0 },
        }
    }

}

/// One delivery the dispatcher owes: which node, and what event.
#[derive(Debug, Clone, PartialEq, Eq)]
pub struct WidgetEventDelivery {
    pub widget: usize,
    pub event: WidgetEvent,
}

/// The first two deliveries of a motion crossing out of a leaf: an exact
/// boundary move to the leaf, then the exit at the same point. `top` is
/// the leaf's handle, `offx`/`offy` the root-space offset of its parent
/// frame, `from` the previous pointer position (root space).
pub open spec fn crossing_pinned(
    arena: crate::arena::WidgetArena,
    top: int,
    offx: int,
    offy: int,
    from: Point2,
    move_to: Point2,
    d: Seq<WidgetEventDelivery>,
) -> bool {
    let rect = arena.nodes@[top].rect;
    let oldl = Point2 { x: (from.x - offx) as i64, y: (from.y - offy) as i64 };
    let newl = Point2 { x: (move_to.x - offx) as i64, y: (move_to.y - offy) as i64 };
    let e = d[0].event.move_new_sp();
    &&& d.len() >= 2
    &&& d[0].widget == top
    &&& d[1].widget == top
    &&& d[0].event.is_mouse_move_sp()
    &&& d[0].event.move_old_sp() == oldl
    &&& d[0].event.move_in_widget_sp()
    &&& d[1].event is MouseExit
    &&& d[1].event.exit_pos_sp() == e
    &&& rect.contains_sp(e)
    &&& rect.on_edge(e)
    &&& crate::bounds::between(oldl.x as int, e.x as int, newl.x as int)
    &&& crate::bounds::between(oldl.y as int, e.y as int, newl.y as int)
    &&& (oldl.y == newl.y ==> e.y == oldl.y)
    &&& (oldl.x == newl.x ==> e.x == oldl.x)
    &&& (oldl.y == newl.y && newl.x > rect.max.x ==> e == Point2 { x: rect.max.x, y: oldl.y })
    &&& (oldl.y == newl.y && newl.x < rect.min.x ==> e == Point2 { x: rect.min.x, y: oldl.y })
}

/// What follows the two crossing deliveries when the parent's box holds
/// the destination and no child of the parent does: the crossed level is
/// popped and the remaining motion — from the boundary point, translated
/// into the parent's frame, to the destination — is delivered to the
/// parent, and nothing more. `poffx`/`poffy` are the root-space offset of
/// the parent's own frame.
pub open spec fn crossing_continued(
    arena: crate::arena::WidgetArena,
    parent: int,
    poffx: int,
    poffy: int,
    move_to: Point2,
    d: Seq<WidgetEventDelivery>,
) -> bool {
    let prect = arena.nodes@[parent].rect;
    let e = d[0].event.move_new_sp();
    let newp = Point2 { x: (move_to.x - poffx) as i64, y: (move_to.y - poffy) as i64 };
    &&& d.len() == 3
    &&& d[2].widget == parent
    &&& d[2].event.is_mouse_move_sp()
    &&& d[2].event.move_in_widget_sp()
    &&& d[2].event.move_old_sp() == (Point2 {
        x: (e.x + prect.min.x) as i64,
        y: (e.y + prect.min.y) as i64,
    })
    &&& d[2].event.move_new_sp() == newp
}

/// The event-loop root: the tree, its generation, the pointer state,
/// the active path, and the FIFO action queue.
#[derive(Debug)]
pub struct Root<A> {
    pub id: RootID,
    pub arena: WidgetArena,
    pub stack: WidgetStack,
    pub mouse_pos: Point2,
    pub mouse_buttons_down: MouseButtonSequence,
    pub actions: VecDeque<A>,
    pub force_full_redraw: bool,
    pub force_full_relayout: bool,
}

impl<A> Root<A> {
    pub open spec fn wf(self) -> bool {
        &&& self.arena.wf()
        &&& self.stack.wf(self.arena)
        &&& self.stack.root_id == self.id
        &&& self.id.0 != NO_GENERATION
        &&& self.mouse_pos.in_range()
        &&& self.mouse_buttons_down.wf()
    }

    /// Handle of the deepest node of the active path.
    pub open spec fn top_sp(self) -> int {
        self.stack.entries@.last().widget as int
    }

    /// The active path as the initial hit-test of a pointer event
    /// confirms it: the current path, descended from its top toward
    /// the pointer position through first containing children.
    pub open spec fn descended_entries_sp(self) -> Seq<StackEntry> {
        let t0 = self.stack.entries@.last().widget as int;
        self.stack.entries@ + WidgetStack::hit_chain_sp(
            self.arena,
            t0,
            Point2 {
                x: (self.mouse_pos.x - self.stack.offset_x
                    - self.arena.nodes@[t0].rect.min.x) as i64,
                y: (self.mouse_pos.y - self.stack.offset_y
                    - self.arena.nodes@[t0].rect.min.y) as i64,
            },
        )
    }

    /// Handle of the deepest hit-confirmed level.
    pub open spec fn descended_top_sp(self) -> int {
        self.descended_entries_sp().last().widget as int
    }

    /// Root-space x offset of the frame the deepest hit-confirmed
    /// level's rectangle lives in (its parent's interior).
    pub open spec fn descended_offx_sp(self) -> int {
        WidgetStack::offset_sum_x(
            self.arena,
            self.descended_entries_sp(),
            self.descended_entries_sp().len() - 1,
        )
    }

    /// Root-space y offset of the frame the deepest hit-confirmed
    /// level's rectangle lives in (its parent's interior).
    pub open spec fn descended_offy_sp(self) -> int {
        WidgetStack::offset_sum_y(
            self.arena,
            self.descended_entries_sp(),
            self.descended_entries_sp().len() - 1,
        )
    }

    /// Take ownership of a tree; the root node's rectangle becomes the
    /// window box and a fresh, never-reused generation is drawn.
    pub fn new(
        mut arena: WidgetArena,
        dims: DimsRect,
        registry: &mut IdRegistry,
    ) -> (r: Root<A>)
        requires
            arena.wf(),
            dims.wf(),
            old(registry).next < NO_GENERATION,
        ensures
            r.wf(),
            r.id == RootID(old(registry).next),
            r.stack.len_sp() == 0,
            r.mouse_pos == (Point2 { x: -1i64, y: -1i64 }),
            r.mouse_buttons_down@ == Seq::<MouseButton>::empty(),
            r.actions@ == Seq::<A>::empty(),
            r.force_full_redraw,
            r.force_full_relayout,
            r.arena.nodes@[0].rect == dims.into_box_sp(),
            r.arena.nodes@.len() == arena.nodes@.len(),
    {
        let id = registry.fresh_root_id();
        arena.set_rect(0, dims.into_box());
        Root {
            id,
            arena,
            stack: WidgetStack::new(id),
            mouse_pos: Point2::new(-1, -1),
            mouse_buttons_down: MouseButtonSequence::new(),
            actions: VecDeque::new(),
            force_full_redraw: true,
            force_full_relayout: true,
        }
    }

    /// Queue an action a node handler produced; drained in FIFO order.
    pub fn push_action(&mut self, action: A)
        ensures
            final(self).actions@ == old(self).actions@.push(action),
            final(self).arena == old(self).arena,
            final(self).stack == old(self).stack,
            final(self).id == old(self).id,
            final(self).mouse_pos == old(self).mouse_pos,
            final(self).mouse_buttons_down == old(self).mouse_buttons_down,
            final(self).force_full_redraw == old(self).force_full_redraw,
            final(self).force_full_relayout == old(self).force_full_relayout,
    {
        self.actions.push_back(action);
    }

    /// Next queued action, oldest first.
    pub fn pop_action(&mut self) -> (r: Option<A>)
        ensures
            final(self).arena == old(self).arena,
            final(self).stack == old(self).stack,
            final(self).id == old(self).id,
            final(self).mouse_pos == old(self).mouse_pos,
            final(self).mouse_buttons_down == old(self).mouse_buttons_down,
            final(self).force_full_redraw == old(self).force_full_redraw,
            final(self).force_full_relayout == old(self).force_full_relayout,
            old(self).actions@.len() == 0 ==> (r is None && final(self).actions@ == old(self).actions@),
            old(self).actions@.len() > 0 ==> (r == Some(old(self).actions@[0])
                && final(self).actions@ == old(self).actions@.drop_first()),
    {
        let r = self.actions.pop_front();
        proof {
            if old(self).actions@.len() > 0 {
                assert(self.actions@ =~= old(self).actions@.drop_first());
            }
        }
        r
    }

    /// The window was resized: the active path is invalidated, a full
    /// redraw and relayout are forced, and the root's own rectangle
    /// becomes the new window box. No node event is owed.
    pub fn handle_window_resize(&mut self, dims: DimsRect)
        requires
            old(self).wf(),
            dims.wf(),
        ensures
            final(self).wf(),
            final(self).stack.len_sp() == 0,
            final(self).force_full_redraw,
            final(self).force_full_relayout,
            final(self).arena.nodes@[0].rect == dims.into_box_sp(),
            final(self).arena.nodes@.len() == old(self).arena.nodes@.len(),
            final(self).id == old(self).id,
            final(self).mouse_pos == old(self).mouse_pos,
            final(self).mouse_buttons_down == old(self).mouse_buttons_down,
            final(self).actions == old(self).actions,
            forall|n: int|
                1 <= n < old(self).arena.nodes@.len() ==> final(self).arena.nodes@[n] == old(
                    self,
                ).arena.nodes@[n],
    {
        self.stack.clear();
        self.force_full_redraw = true;
        self.force_full_relayout = true;
        self.arena.set_rect(0, dims.into_box());
    }

    /// The pointer entered the window: the root becomes the sole entry
    /// of the active path, starts hovering, and is owed one mouse-enter
    /// event carrying the entry position.
    pub fn handle_mouse_enter(&mut self, enter_pos: Point2) -> (d: Vec<WidgetEventDelivery>)
        requires
            old(self).wf(),
            old(self).stack.len_sp() == 0,
            old(self).stack.idents@.len() == 0,
            enter_pos.in_range(),
        ensures
            final(self).wf(),
            final(self).id == old(self).id,
            final(self).mouse_pos == enter_pos,
            final(self).stack.len_sp() == 1,
            final(self).top_sp() == 0,
            d@.len() == 1,
            d@[0].widget == 0,
            d@[0].event matches WidgetEvent::MouseEnter {
                enter_pos: e,
                buttons_down: b,
                buttons_down_in_widget: w,
            } && e == enter_pos && b@ == old(self).mouse_buttons_down@ && w@ == old(
                self,
            ).arena.nodes@[0].update_tag.buttons_in_widget_sp(),
            final(self).arena.nodes@[0].update_tag.mouse_state.is_hovering_sp(),
            final(self).arena.nodes@[0].update_tag.mouse_state.pos_sp() == enter_pos,
            final(self).arena.nodes@[0].update_tag.mouse_state.mbseq_sp() == old(
                self,
            ).arena.nodes@[0].update_tag.buttons_in_widget_sp(),
    {
        self.mouse_pos = enter_pos;
        self.stack.push_root(&self.arena);
        let buttons_down = self.mouse_buttons_down.snapshot();
        let in_widget = self.arena.tag(0).buttons_in_widget();
        let held = self.arena.tag(0).buttons_in_widget();
        proof {
            assert(self.arena.wf_node(0));
        }
        self.arena.set_mouse_state(0, MouseState::Hovering(enter_pos, held));
        proof {
            crate::stack::WidgetStack::lemma_offset_sum_same_rects(
                old(self).arena,
                self.arena,
                self.stack.entries@,
                self.stack.len_sp() - 1,
            );
            assert(self.stack.wf(self.arena));
        }
        let mut d: Vec<WidgetEventDelivery> = Vec::new();
        d.push(
            WidgetEventDelivery {
                widget: 0,
                event: WidgetEvent::MouseEnter {
                    enter_pos,
                    buttons_down,
                    buttons_down_in_widget: in_widget,
                },
            },
        );
        d
    }

    /// The pointer left the window: every node on the active path is
    /// owed a mouse-exit, deepest first, and the path is then cleared.
    #[verifier::loop_isolation(false)]
    pub fn handle_mouse_exit(&mut self, exit_pos: Point2) -> (d: Vec<WidgetEventDelivery>)
        requires
            old(self).wf(),
            old(self).stack.len_sp() >= 1,
            exit_pos.in_range(),
        ensures
            final(self).wf(),
            final(self).id == old(self).id,
            final(self).mouse_pos == old(self).mouse_pos,
            final(self).stack.len_sp() == 0,
            d@.len() == old(self).stack.len_sp(),
            forall|i: int|
                0 <= i < d@.len() ==> (#[trigger] d@[i]).widget == old(self).stack.entries@[old(
                    self,
                ).stack.len_sp() - 1 - i].widget && d@[i].event is MouseExit,
            // each level is told where the pointer left, in its own frame
            forall|i: int|
                0 <= i < d@.len() ==> (#[trigger] d@[i]).event.exit_pos_sp() == (Point2 {
                    x: (exit_pos.x - crate::stack::WidgetStack::offset_sum_x(
                        old(self).arena,
                        old(self).stack.entries@,
                        old(self).stack.len_sp() - 1 - i,
                    )) as i64,
                    y: (exit_pos.y - crate::stack::WidgetStack::offset_sum_y(
                        old(self).arena,
                        old(self).stack.entries@,
                        old(self).stack.len_sp() - 1 - i,
                    )) as i64,
                }),
    {
        let ghost orig = self.stack;
        let ghost orig_arena = self.arena;
        let ghost old_len = self.stack.len_sp();
        let mut d: Vec<WidgetEventDelivery> = Vec::new();
        loop
            invariant
                orig == old(self).stack,
                old_len == orig.len_sp(),
                old_len >= 1,
                exit_pos.in_range(),
                self.wf(),
                self.id == old(self).id,
                self.mouse_pos == old(self).mouse_pos,
                self.mouse_buttons_down == old(self).mouse_buttons_down,
                self.actions == old(self).actions,
                1 <= self.stack.len_sp(),
                self.stack.entries@ == orig.entries@.take(self.stack.len_sp()),
                d@.len() == old_len - self.stack.len_sp(),
                forall|i: int|
                    0 <= i < d@.len() ==> (#[trigger] d@[i]).widget == orig.entries@[old_len - 1
                        - i].widget && d@[i].event is MouseExit,
                orig_arena == old(self).arena,
                self.arena.nodes@.len() == orig_arena.nodes@.len(),
                forall|n: int|
                    0 <= n < orig_arena.nodes@.len() ==> (#[trigger] self.arena.nodes@[n]).rect
                        == orig_arena.nodes@[n].rect,
                forall|i: int|
                    0 <= i < d@.len() ==> (#[trigger] d@[i]).event.exit_pos_sp() == (Point2 {
                        x: (exit_pos.x - crate::stack::WidgetStack::offset_sum_x(
                            orig_arena,
                            orig.entries@,
                            old_len - 1 - i,
                        )) as i64,
                        y: (exit_pos.y - crate::stack::WidgetStack::offset_sum_y(
                            orig_arena,
                            orig.entries@,
                            old_len - 1 - i,
                        )) as i64,
                    }),
            decreases self.stack.len_sp(),
        {
            proof {
                self.stack.lemma_len_bounded(self.arena);
                crate::stack::WidgetStack::lemma_offset_sum_bound(
                    self.arena,
                    self.stack.entries@,
                    self.stack.len_sp() - 1,
                );
            }
            let top = self.stack.top();
            let off = self.stack.top_parent_offset();
            proof {
                // the cached offset matches the original geometry: only
                // tags have changed along the way
                crate::stack::WidgetStack::lemma_offset_sum_prefix(
                    self.arena,
                    self.stack.entries@,
                    orig.entries@,
                    self.stack.len_sp() - 1,
                );
                crate::stack::WidgetStack::lemma_offset_sum_same_rects(
                    self.arena,
                    orig_arena,
                    orig.entries@,
                    self.stack.len_sp() - 1,
                );
            }
            let local = Point2 { x: exit_pos.x - off.x, y: exit_pos.y - off.y };
            let buttons_down = self.mouse_buttons_down.snapshot();
            let held = self.arena.tag(top).buttons_in_widget();
            proof {
                assert(self.arena.wf_node(top as int));
            }
            d.push(
                WidgetEventDelivery {
                    widget: top,
                    event: WidgetEvent::MouseExit {
                        exit_pos: local,
                        buttons_down,
                        buttons_down_in_widget: self.arena.tag(top).buttons_in_widget(),
                    },
                },
            );
            let ghost pre_arena = self.arena;
            let next_state = if held.len() > 0 {
                MouseState::Tracking(local, held)
            } else {
                MouseState::Untracked
            };
            self.arena.set_mouse_state(top, next_state);
            proof {
                assert(crate::stack::WidgetStack::same_shape(pre_arena, self.arena));
                self.stack.lemma_wf_same_shape(pre_arena, self.arena);
            }
            if self.stack.len() == 1 {
                self.stack.clear();
                return d;
            }
            self.stack.pop(&mut self.arena);
            proof {
                assert(self.stack.entries@ =~= orig.entries@.take(self.stack.len_sp()));
            }
        }
    }

    /// A button was pressed: hit-test to the deepest node under the
    /// pointer, deliver the press there, record the button in that
    /// node's capture state, and propagate the button's class into
    /// every path node's interest summary so a later release can find
    /// the holder wherever the pointer has gone.
    pub fn handle_mouse_down(&mut self, button: MouseButton) -> (d: Vec<WidgetEventDelivery>)
        requires
            old(self).wf(),
        ensures
            final(self).wf(),
            final(self).id == old(self).id,
            final(self).mouse_pos == old(self).mouse_pos,
            final(self).stack.len_sp() >= 1,
            d@.len() == 1,
            d@[0].widget == final(self).top_sp(),
            d@[0].event matches WidgetEvent::MouseDown { pos: p, button: b } && b == button && p
                == (Point2 {
                x: (old(self).mouse_pos.x - final(self).stack.offset_x) as i64,
                y: (old(self).mouse_pos.y - final(self).stack.offset_y) as i64,
            }),
            final(self).mouse_buttons_down@.contains(button),
            crate::stack::entry_tag(
                final(self).arena,
                final(self).stack.entries@.last(),
            ).mouse_state.mbseq_sp().contains(button),
            forall|i: int|
                0 <= i < final(self).stack.len_sp() ==> crate::stack::entry_tag(
                    final(self).arena,
                    #[trigger] final(self).stack.entries@[i],
                ).child_event_recv.has_button_sp(button),
    {
        if self.stack.is_empty() {
            self.stack.push_root(&self.arena);
        }
        self.stack.move_to_point(&self.arena, self.mouse_pos);
        proof {
            self.stack.lemma_len_bounded(self.arena);
            crate::stack::WidgetStack::lemma_offset_sum_bound(
                self.arena,
                self.stack.entries@,
                self.stack.len_sp() - 1,
            );
        }
        let top = self.stack.top();
        let off = self.stack.top_parent_offset();
        let local = Point2 { x: self.mouse_pos.x - off.x, y: self.mouse_pos.y - off.y };
        let mut d: Vec<WidgetEventDelivery> = Vec::new();
        d.push(
            WidgetEventDelivery {
                widget: top,
                event: WidgetEvent::MouseDown { pos: local, button },
            },
        );
        self.mouse_buttons_down.push_button(button);
        proof {
            assert(self.arena.wf_node(top as int));
        }
        let mut held = self.arena.tag(top).buttons_in_widget();
        held.push_button(button);
        let ghost pre_arena = self.arena;
        self.arena.set_mouse_state(top, MouseState::Hovering(local, held));
        proof {
            assert(crate::stack::WidgetStack::same_shape(pre_arena, self.arena));
            self.stack.lemma_wf_same_shape(pre_arena, self.arena);
        }
        let mask = ChildEventRecv::mouse_button_mask(button);
        let mut i: usize = 0;
        let len = self.stack.len();
        let ghost stack_here = self.stack;
        while i < len
            invariant
                self.wf(),
                self.stack == stack_here,
                len == self.stack.len_sp(),
                0 <= i <= len,
                mask == ChildEventRecv::button_mask_sp(button),
                forall|k: int|
                    0 <= k < i ==> crate::stack::entry_tag(
                        self.arena,
                        #[trigger] self.stack.entries@[k],
                    ).child_event_recv.has_button_sp(button),
                crate::stack::entry_tag(
                    self.arena,
                    self.stack.entries@.last(),
                ).mouse_state.mbseq_sp().contains(button),
                self.mouse_buttons_down@.contains(button),
                self.stack.entries@.len() == len,
                d@.len() == 1,
                self.id == old(self).id,
                self.mouse_pos == old(self).mouse_pos,
            decreases len - i,
        {
            let h = self.stack.entries[i].widget;
            let ghost pre = self.arena;
            self.arena.merge_cer(h, mask);
            proof {
                assert(crate::stack::WidgetStack::same_shape(pre, self.arena));
                self.stack.lemma_wf_same_shape(pre, self.arena);
                assert forall|k: int|
                    0 <= k <= i implies crate::stack::entry_tag(
                    self.arena,
                    #[trigger] self.stack.entries@[k],
                ).child_event_recv.has_button_sp(button) by {
                    if k < i && self.stack.entries@[k].widget != h {
                        assert(self.arena.nodes@[self.stack.entries@[k].widget as int] == pre.nodes@[
                            self.stack.entries@[k].widget as int]);
                    }
                }
            }
            i += 1;
        }
        d
    }




    /// The pointer moved. The active path is confirmed by hit-test at
    /// the old position, then walked: where the motion's segment exits
    /// the current top's box, an exact boundary move and an exit are
    /// delivered and the level popped; where it stays inside and a
    /// child contains the destination, boundary-entry events are
    /// synthesized and the child pushed; the node the motion rests in
    /// receives the plain move. Nothing is delivered when the
    /// destination lies outside the window.
    #[verifier::rlimit(100)]
    #[verifier::loop_isolation(false)]
    pub fn handle_mouse_move(&mut self, move_to: Point2) -> (d: Vec<WidgetEventDelivery>)
        requires
            old(self).wf(),
            move_to.in_range(),
        ensures
            final(self).wf(),
            final(self).id == old(self).id,
            final(self).mouse_pos == move_to,
            !old(self).arena.nodes@[0].rect.contains_sp(move_to) ==> d@.len() == 0,
            // plain move: a leaf hit-confirmed top whose box holds both
            // ends of the motion
            ({
                let t = old(self).descended_top_sp();
                let ox = old(self).descended_offx_sp();
                let oy = old(self).descended_offy_sp();
                let oldl = Point2 {
                    x: (old(self).mouse_pos.x - ox) as i64,
                    y: (old(self).mouse_pos.y - oy) as i64,
                };
                let newl = Point2 { x: (move_to.x - ox) as i64, y: (move_to.y - oy) as i64 };
                &&& old(self).stack.len_sp() >= 1
                &&& old(self).arena.nodes@[t].kind is Leaf
                &&& old(self).arena.nodes@[t].rect.contains_sp(oldl)
                &&& old(self).arena.nodes@[t].rect.contains_sp(newl)
                &&& old(self).arena.nodes@[0].rect.contains_sp(move_to)
            }) ==> ({
                let t = old(self).descended_top_sp();
                let ox = old(self).descended_offx_sp();
                let oy = old(self).descended_offy_sp();
                let oldl = Point2 {
                    x: (old(self).mouse_pos.x - ox) as i64,
                    y: (old(self).mouse_pos.y - oy) as i64,
                };
                let newl = Point2 { x: (move_to.x - ox) as i64, y: (move_to.y - oy) as i64 };
                &&& d@.len() == 1
                &&& d@[0].widget == t
                &&& d@[0].event.is_mouse_move_sp()
                &&& d@[0].event.move_old_sp() == oldl
                &&& d@[0].event.move_new_sp() == newl
                &&& d@[0].event.move_in_widget_sp()
                &&& final(self).stack.entries@ == old(self).descended_entries_sp()
            }),
            // crossing: a leaf hit-confirmed top left before the
            // destination gets an exact boundary move, then the exit at
            // the same point
            ({
                let t = old(self).descended_top_sp();
                let ox = old(self).descended_offx_sp();
                let oy = old(self).descended_offy_sp();
                let oldl = Point2 {
                    x: (old(self).mouse_pos.x - ox) as i64,
                    y: (old(self).mouse_pos.y - oy) as i64,
                };
                let newl = Point2 { x: (move_to.x - ox) as i64, y: (move_to.y - oy) as i64 };
                &&& old(self).stack.len_sp() >= 1
                &&& old(self).arena.nodes@[t].kind is Leaf
                &&& old(self).arena.nodes@[t].rect.contains_sp(oldl)
                &&& !old(self).arena.nodes@[t].rect.contains_sp(newl)
                &&& old(self).arena.nodes@[0].rect.contains_sp(move_to)
            }) ==> crossing_pinned(
                old(self).arena,
                old(self).descended_top_sp(),
                old(self).descended_offx_sp(),
                old(self).descended_offy_sp(),
                old(self).mouse_pos,
                move_to,
                d@,
            ),
            // crossing continuation: the crossed level is popped and,
            // when the parent's box holds the destination and no child
            // of the parent does, the remaining motion is the third and
            // last delivery, against the parent
            ({
                let dent = old(self).descended_entries_sp();
                let t = old(self).descended_top_sp();
                let ox = old(self).descended_offx_sp();
                let oy = old(self).descended_offy_sp();
                let oldl = Point2 {
                    x: (old(self).mouse_pos.x - ox) as i64,
                    y: (old(self).mouse_pos.y - oy) as i64,
                };
                let newl = Point2 { x: (move_to.x - ox) as i64, y: (move_to.y - oy) as i64 };
                let parent = dent[dent.len() - 2].widget as int;
                let prect = old(self).arena.nodes@[parent].rect;
                let newp = Point2 {
                    x: (move_to.x - (ox - prect.min.x)) as i64,
                    y: (move_to.y - (oy - prect.min.y)) as i64,
                };
                &&& old(self).stack.len_sp() >= 1
                &&& dent.len() >= 2
                &&& old(self).arena.nodes@[t].kind is Leaf
                &&& old(self).arena.nodes@[t].rect.contains_sp(oldl)
                &&& !old(self).arena.nodes@[t].rect.contains_sp(newl)
                &&& old(self).arena.nodes@[0].rect.contains_sp(move_to)
                &&& prect.contains_sp(newp)
                &&& (forall|k: int|
                    0 <= k < old(self).arena.nodes@[parent].children@.len() ==> !old(
                        self,
                    ).arena.nodes@[(#[trigger] old(
                        self,
                    ).arena.nodes@[parent].children@[k]).widget as int].rect.contains_sp(
                        Point2 {
                            x: (newp.x - prect.min.x) as i64,
                            y: (newp.y - prect.min.y) as i64,
                        },
                    ))
            }) ==> ({
                let dent = old(self).descended_entries_sp();
                let parent = dent[dent.len() - 2].widget as int;
                let prect = old(self).arena.nodes@[parent].rect;
                &&& crossing_continued(
                    old(self).arena,
                    parent,
                    old(self).descended_offx_sp() - prect.min.x,
                    old(self).descended_offy_sp() - prect.min.y,
                    move_to,
                    d@,
                )
                &&& final(self).stack.entries@ == dent.drop_last()
            }),
    {
        if self.stack.is_empty() {
            self.stack.push_root(&self.arena);
        }
        self.stack.move_to_point(&self.arena, self.mouse_pos);
        let ghost hstack = self.stack;
        let ghost htop = hstack.entries@.last().widget as int;
        let ghost hoffx = hstack.offset_x as int;
        let ghost hoffy = hstack.offset_y as int;
        proof {
            self.stack.lemma_len_bounded(self.arena);
            WidgetStack::lemma_offset_sum_bound(
                self.arena,
                hstack.entries@,
                hstack.len_sp() - 1,
            );
            assert(hoffx == WidgetStack::offset_sum_x(
                self.arena,
                hstack.entries@,
                hstack.len_sp() - 1,
            ));
            assert(hoffy == WidgetStack::offset_sum_y(
                self.arena,
                hstack.entries@,
                hstack.len_sp() - 1,
            ));
            if old(self).stack.len_sp() >= 1 {
                // the hit-test pinned the descended path exactly, so the
                // confirmed top and offsets match the descended values
                assert(hstack.entries@ == old(self).descended_entries_sp());
                assert(htop == old(self).descended_top_sp());
                assert(hoffx == old(self).descended_offx_sp());
                assert(hoffy == old(self).descended_offy_sp());
            }
        }
        let mut old_gx: i64 = self.mouse_pos.x;
        let mut old_gy: i64 = self.mouse_pos.y;
        self.mouse_pos = move_to;
        let mut d: Vec<WidgetEventDelivery> = Vec::new();
        let root_rect = self.arena.rect(0);
        if !root_rect.contains(move_to) {
            return d;
        }
        let ghost oldl0 = Point2 {
            x: (old(self).mouse_pos.x - hoffx) as i64,
            y: (old(self).mouse_pos.y - hoffy) as i64,
        };
        let ghost newl0 = Point2 {
            x: (move_to.x - hoffx) as i64,
            y: (move_to.y - hoffy) as i64,
        };
        let ghost plain_pre = old(self).stack.len_sp() >= 1 && old(self).arena.nodes@[htop].kind
            is Leaf && old(self).arena.nodes@[htop].rect.contains_sp(oldl0) && old(
            self,
        ).arena.nodes@[htop].rect.contains_sp(newl0);
        let ghost cross_pre = old(self).stack.len_sp() >= 1 && old(self).arena.nodes@[htop].kind
            is Leaf && old(self).arena.nodes@[htop].rect.contains_sp(oldl0) && !old(
            self,
        ).arena.nodes@[htop].rect.contains_sp(newl0);
        let ghost parent_h = hstack.entries@[hstack.len_sp() - 2].widget as int;
        let ghost prect = old(self).arena.nodes@[parent_h].rect;
        let ghost poffx = hoffx - prect.min.x;
        let ghost poffy = hoffy - prect.min.y;
        let ghost newp = Point2 {
            x: (move_to.x - poffx) as i64,
            y: (move_to.y - poffy) as i64,
        };
        let ghost cont_pre = cross_pre && hstack.len_sp() >= 2 && prect.contains_sp(newp) && (forall|
            k: int,
        |
            0 <= k < old(self).arena.nodes@[parent_h].children@.len() ==> !old(
                self,
            ).arena.nodes@[(#[trigger] old(
                self,
            ).arena.nodes@[parent_h].children@[k]).widget as int].rect.contains_sp(
                Point2 {
                    x: (newp.x - prect.min.x) as i64,
                    y: (newp.y - prect.min.y) as i64,
                },
            ));
        // unwind: pop levels the motion's segment leaves
        let mut done_unwind = false;
        while !done_unwind
            invariant
                self.wf(),
                self.id == old(self).id,
                self.stack.len_sp() >= 1,
                self.mouse_pos == move_to,
                move_to.in_range(),
                self.arena.nodes@[0].rect == root_rect,
                root_rect.contains_sp(move_to),
                WidgetStack::same_shape(old(self).arena, self.arena),
                -(crate::bounds::OFFSET_LIMIT + crate::bounds::COORD_LIMIT) <= old_gx as int
                    <= crate::bounds::OFFSET_LIMIT + crate::bounds::COORD_LIMIT,
                -(crate::bounds::OFFSET_LIMIT + crate::bounds::COORD_LIMIT) <= old_gy as int
                    <= crate::bounds::OFFSET_LIMIT + crate::bounds::COORD_LIMIT,
                -crate::bounds::OFFSET_LIMIT <= hoffx <= crate::bounds::OFFSET_LIMIT,
                -crate::bounds::OFFSET_LIMIT <= hoffy <= crate::bounds::OFFSET_LIMIT,
                plain_pre ==> (self.stack == hstack && self.arena == old(self).arena
                    && self.mouse_buttons_down == old(self).mouse_buttons_down && old_gx == old(
                    self,
                ).mouse_pos.x && old_gy == old(self).mouse_pos.y && d@.len() == 0),
                cross_pre ==> (crossing_pinned(
                    old(self).arena,
                    htop,
                    hoffx,
                    hoffy,
                    old(self).mouse_pos,
                    move_to,
                    d@,
                ) || (self.stack == hstack && self.arena == old(self).arena && old_gx == old(
                    self,
                ).mouse_pos.x && old_gy == old(self).mouse_pos.y && d@.len() == 0)),
                done_unwind ==> (cross_pre ==> crossing_pinned(
                    old(self).arena,
                    htop,
                    hoffx,
                    hoffy,
                    old(self).mouse_pos,
                    move_to,
                    d@,
                )),
                cont_pre ==> ((self.stack == hstack && d@.len() == 0) || (d@.len() == 2
                    && self.stack.entries@ == hstack.entries@.drop_last() && old_gx as int == d@[0].event.move_new_sp().x
                    + hoffx && old_gy as int == d@[0].event.move_new_sp().y + hoffy)),
                done_unwind && cont_pre ==> (d@.len() == 2 && self.stack.entries@
                    == hstack.entries@.drop_last() && old_gx as int == d@[0].event.move_new_sp().x
                    + hoffx && old_gy as int == d@[0].event.move_new_sp().y + hoffy),
            decreases self.stack.len_sp() + (if done_unwind { 0int } else { 1int }),
        {
            proof {
                self.stack.lemma_len_bounded(self.arena);
                crate::stack::WidgetStack::lemma_offset_sum_bound(
                    self.arena,
                    self.stack.entries@,
                    self.stack.len_sp() - 1,
                );
            }
            let top = self.stack.top();
            let off = self.stack.top_parent_offset();
            let rect = self.arena.rect(top);
            proof {
                assert(self.arena.wf_node(top as int));
                if cont_pre && d@.len() == 2 {
                    // the crossed level is gone: the top is the parent, in
                    // its own frame, and its box holds the destination
                    let hl = hstack.len_sp();
                    assert(self.stack.entries@.last() == hstack.entries@[hl - 2]);
                    assert(top as int == parent_h);
                    assert(rect == prect);
                    WidgetStack::lemma_offset_sum_same_rects(
                        self.arena,
                        old(self).arena,
                        self.stack.entries@,
                        hl - 2,
                    );
                    WidgetStack::lemma_offset_sum_prefix(
                        old(self).arena,
                        self.stack.entries@,
                        hstack.entries@,
                        hl - 2,
                    );
                    assert(hoffx == WidgetStack::offset_sum_x(old(self).arena, hstack.entries@, hl - 2)
                        + prect.min.x);
                    assert(hoffy == WidgetStack::offset_sum_y(old(self).arena, hstack.entries@, hl - 2)
                        + prect.min.y);
                    assert(off.x == poffx && off.y == poffy);
                }
            }
            let oldl = Point2 { x: old_gx - off.x, y: old_gy - off.y };
            let newl = Point2 { x: move_to.x - off.x, y: move_to.y - off.y };
            let start = Point2 {
                x: crate::bounds::clamp64(oldl.x, rect.min.x, rect.max.x),
                y: crate::bounds::clamp64(oldl.y, rect.min.y, rect.max.y),
            };
            let ghost d_before = d@;
            let exit_opt = segment_exit(&rect, start, newl);
            match exit_opt {
                None => {
                    proof {
                        if cross_pre && d@.len() == 0 {
                            // from the untouched initial state the old leaf
                            // top must be left, so no crossing is absurd
                            assert(self.stack == hstack);
                            assert(off.x == hoffx && off.y == hoffy);
                            assert(newl.x as int == move_to.x - hoffx);
                            assert(newl.y as int == move_to.y - hoffy);
                            assert(newl == newl0);
                            assert(top as int == htop);
                            assert(rect == old(self).arena.nodes@[htop].rect);
                            assert(rect.contains_sp(newl));
                            assert(false);
                        }
                    }
                    done_unwind = true;
                },
                Some(exit) => {
                    proof {
                        // the root always contains the destination, so it
                        // is never left
                        if self.stack.len_sp() == 1 {
                            assert(self.stack.offset_x == 0 && self.stack.offset_y == 0);
                            assert(rect.contains_sp(newl));
                            assert(false);
                        }
                        if plain_pre {
                            assert(self.stack == hstack);
                            assert(off.x == hoffx && off.y == hoffy);
                            assert(newl.x as int == move_to.x - hoffx);
                            assert(newl.y as int == move_to.y - hoffy);
                            assert(newl == newl0);
                            assert(top as int == htop);
                            assert(rect == old(self).arena.nodes@[htop].rect);
                            assert(rect.contains_sp(newl));
                            assert(false);
                        }
                        if cont_pre && d@.len() == 2 {
                            // the parent's box holds the destination, so a
                            // further crossing is absurd
                            assert(newl.x as int == move_to.x - poffx);
                            assert(newl.y as int == move_to.y - poffy);
                            assert(newl == newp);
                            assert(rect.contains_sp(newl));
                            assert(false);
                        }
                    }
                    let buttons_down = self.mouse_buttons_down.snapshot();
                    let held = self.arena.tag(top).buttons_in_widget();
                    d.push(
                        WidgetEventDelivery {
                            widget: top,
                            event: WidgetEvent::MouseMove {
                                old_pos: oldl,
                                new_pos: exit,
                                in_widget: true,
                                buttons_down,
                                buttons_down_in_widget: self.arena.tag(top).buttons_in_widget(),
                            },
                        },
                    );
                    d.push(
                        WidgetEventDelivery {
                            widget: top,
                            event: WidgetEvent::MouseExit {
                                exit_pos: exit,
                                buttons_down: self.mouse_buttons_down.snapshot(),
                                buttons_down_in_widget: self.arena.tag(top).buttons_in_widget(),
                            },
                        },
                    );
                    let next_state = if held.len() > 0 {
                        MouseState::Tracking(exit, held)
                    } else {
                        MouseState::Untracked
                    };
                    let ghost pre = self.arena;
                    self.arena.set_mouse_state(top, next_state);
                    proof {
                        assert(crate::stack::WidgetStack::same_shape(pre, self.arena));
                        self.stack.lemma_wf_same_shape(pre, self.arena);
                    }
                    let ghost stack_before_pop = self.stack;
                    self.stack.pop(&mut self.arena);
                    old_gx = exit.x + off.x;
                    old_gy = exit.y + off.y;
                    proof {
                        if cross_pre {
                            if d_before.len() == 0 {
                                // this was the first crossing: the clamp
                                // was the identity, so the exit facts pin
                                // the two deliveries exactly
                                assert(off.x == hoffx && off.y == hoffy);
                                assert(oldl.x as int == old(self).mouse_pos.x - hoffx);
                                assert(oldl == oldl0);
                                assert(newl == newl0);
                                assert(rect == old(self).arena.nodes@[htop].rect);
                                assert(rect.contains_sp(oldl));
                                assert(start == oldl);
                                assert(d@[0].event.move_new_sp() == exit);
                                assert(d@[0].event.move_old_sp() == oldl);
                                assert(d@[1].event.exit_pos_sp() == exit);
                                assert(crossing_pinned(
                                    old(self).arena,
                                    htop,
                                    hoffx,
                                    hoffy,
                                    old(self).mouse_pos,
                                    move_to,
                                    d@,
                                ));
                                if cont_pre {
                                    // the pop leaves exactly the parent path
                                    assert(stack_before_pop.entries@ == hstack.entries@);
                                    assert(self.stack.entries@
                                        == hstack.entries@.drop_last());
                                    assert(old_gx as int == d@[0].event.move_new_sp().x + hoffx);
                                    assert(old_gy as int == d@[0].event.move_new_sp().y + hoffy);
                                }
                            } else {
                                assert(d@[0] == d_before[0]);
                                assert(d@[1] == d_before[1]);
                                assert(crossing_pinned(
                                    old(self).arena,
                                    htop,
                                    hoffx,
                                    hoffy,
                                    old(self).mouse_pos,
                                    move_to,
                                    d@,
                                ));
                            }
                        }
                    }
                },
            }
        }

        // descend: push children that contain the destination
        loop
            invariant
                self.wf(),
                self.id == old(self).id,
                self.stack.len_sp() >= 1,
                self.mouse_pos == move_to,
                move_to.in_range(),
                WidgetStack::same_shape(old(self).arena, self.arena),
                -(crate::bounds::OFFSET_LIMIT + crate::bounds::COORD_LIMIT) <= old_gx as int
                    <= crate::bounds::OFFSET_LIMIT + crate::bounds::COORD_LIMIT,
                -(crate::bounds::OFFSET_LIMIT + crate::bounds::COORD_LIMIT) <= old_gy as int
                    <= crate::bounds::OFFSET_LIMIT + crate::bounds::COORD_LIMIT,
                -crate::bounds::OFFSET_LIMIT <= hoffx <= crate::bounds::OFFSET_LIMIT,
                -crate::bounds::OFFSET_LIMIT <= hoffy <= crate::bounds::OFFSET_LIMIT,
                plain_pre ==> (self.stack == hstack && self.arena == old(self).arena
                    && self.mouse_buttons_down == old(self).mouse_buttons_down && old_gx == old(
                    self,
                ).mouse_pos.x && old_gy == old(self).mouse_pos.y && d@.len() == 0),
                cross_pre ==> crossing_pinned(
                    old(self).arena,
                    htop,
                    hoffx,
                    hoffy,
                    old(self).mouse_pos,
                    move_to,
                    d@,
                ),
                cont_pre ==> (d@.len() == 2 && self.stack.entries@
                    == hstack.entries@.drop_last() && old_gx as int == d@[0].event.move_new_sp().x
                    + hoffx && old_gy as int == d@[0].event.move_new_sp().y + hoffy),
            decreases self.arena.nodes@.len() - self.stack.entries@.last().widget,
        {
            proof {
                self.stack.lemma_len_bounded(self.arena);
                crate::stack::WidgetStack::lemma_offset_sum_bound(
                    self.arena,
                    self.stack.entries@,
                    self.stack.len_sp() - 1,
                );
            }
            let top = self.stack.top();
            match self.arena.kind(top) {
                WidgetKind::Leaf => {
                    break ;
                },
                WidgetKind::Parent => {
                    proof {
                        assert(self.arena.wf_node(top as int));
                        if plain_pre {
                            assert(self.stack == hstack);
                            assert(self.arena == old(self).arena);
                            assert(old(self).arena.nodes@[htop].kind is Leaf);
                            assert(top as int == htop);
                            assert(self.arena.nodes@[htop].kind is Leaf);
                            assert(false);
                        }
                    }
                    let off = self.stack.top_parent_offset();
                    let rect = self.arena.rect(top);
                    proof {
                        if cont_pre {
                            // the top is the crossed level's parent, seen in
                            // its own frame
                            let hl = hstack.len_sp();
                            assert(self.stack.entries@.last() == hstack.entries@[hl - 2]);
                            assert(top as int == parent_h);
                            assert(rect == prect);
                            WidgetStack::lemma_offset_sum_same_rects(
                                self.arena,
                                old(self).arena,
                                self.stack.entries@,
                                hl - 2,
                            );
                            WidgetStack::lemma_offset_sum_prefix(
                                old(self).arena,
                                self.stack.entries@,
                                hstack.entries@,
                                hl - 2,
                            );
                            assert(hoffx == WidgetStack::offset_sum_x(
                                old(self).arena,
                                hstack.entries@,
                                hl - 2,
                            ) + prect.min.x);
                            assert(hoffy == WidgetStack::offset_sum_y(
                                old(self).arena,
                                hstack.entries@,
                                hl - 2,
                            ) + prect.min.y);
                            assert(off.x == poffx && off.y == poffy);
                        }
                    }
                    let new_int = Point2 {
                        x: move_to.x - off.x - rect.min.x,
                        y: move_to.y - off.y - rect.min.y,
                    };
                    let ghost pre_stack = self.stack;
                    match self.stack.try_push_point(&self.arena, new_int) {
                        None => {
                            break ;
                        },
                        Some(s) => {
                            proof {
                                assert(self.stack.link_ok(self.arena, self.stack.len_sp() - 1));
                                assert(self.arena.wf_node(pre_stack.entries@.last().widget as int));
                                assert(pre_stack.entries@.last().widget
                                    < self.stack.entries@.last().widget);
                                assert(self.arena.wf_node(s.widget as int));
                                if cont_pre {
                                    // no child of the parent holds the
                                    // destination, so a push is absurd
                                    let children = old(self).arena.nodes@[parent_h].children@;
                                    assert(self.arena.nodes@[parent_h].children@ == children);
                                    assert(children[s.index as int].widget == s.widget);
                                    assert(s.rect == self.arena.nodes@[s.widget as int].rect);
                                    assert(s.rect == old(self).arena.nodes@[s.widget as int].rect);
                                    assert(new_int == (Point2 {
                                        x: (newp.x - prect.min.x) as i64,
                                        y: (newp.y - prect.min.y) as i64,
                                    }));
                                    assert(!s.rect.contains_sp(new_int));
                                    assert(false);
                                }
                            }
                            let old_int = Point2 {
                                x: old_gx - off.x - rect.min.x,
                                y: old_gy - off.y - rect.min.y,
                            };
                            let enter_opt = segment_enter(&s.rect, old_int, new_int);
                            if let Some(enter) = enter_opt {
                                let enter_pf = Point2 {
                                    x: enter.x + rect.min.x,
                                    y: enter.y + rect.min.y,
                                };
                                let oldl = Point2 { x: old_gx - off.x, y: old_gy - off.y };
                                d.push(
                                    WidgetEventDelivery {
                                        widget: top,
                                        event: WidgetEvent::MouseMove {
                                            old_pos: oldl,
                                            new_pos: enter_pf,
                                            in_widget: true,
                                            buttons_down: self.mouse_buttons_down.snapshot(),
                                            buttons_down_in_widget: self.arena.tag(
                                                top,
                                            ).buttons_in_widget(),
                                        },
                                    },
                                );
                                d.push(
                                    WidgetEventDelivery {
                                        widget: top,
                                        event: WidgetEvent::MouseEnterChild {
                                            enter_pos: enter_pf,
                                            child: s.ident,
                                            buttons_down: self.mouse_buttons_down.snapshot(),
                                            buttons_down_in_widget: self.arena.tag(
                                                top,
                                            ).buttons_in_widget(),
                                        },
                                    },
                                );
                                d.push(
                                    WidgetEventDelivery {
                                        widget: s.widget,
                                        event: WidgetEvent::MouseEnter {
                                            enter_pos: enter,
                                            buttons_down: self.mouse_buttons_down.snapshot(),
                                            buttons_down_in_widget: self.arena.tag(
                                                s.widget,
                                            ).buttons_in_widget(),
                                        },
                                    },
                                );
                                old_gx = enter.x + off.x + rect.min.x;
                                old_gy = enter.y + off.y + rect.min.y;
                            }
                            let child_held = self.arena.tag(s.widget).buttons_in_widget();
                            let ghost pre = self.arena;
                            proof {
                                assert(self.arena.wf_node(s.widget as int));
                            }
                            self.arena.set_mouse_state(
                                s.widget,
                                MouseState::Hovering(new_int, child_held),
                            );
                            proof {
                                assert(crate::stack::WidgetStack::same_shape(pre, self.arena));
                                self.stack.lemma_wf_same_shape(pre, self.arena);
                            }
                        },
                    }
                },
            }
        }

        // the plain move to the node the motion rests in
        proof {
            self.stack.lemma_len_bounded(self.arena);
            crate::stack::WidgetStack::lemma_offset_sum_bound(
                self.arena,
                self.stack.entries@,
                self.stack.len_sp() - 1,
            );
        }
        let top = self.stack.top();
        let off = self.stack.top_parent_offset();
        proof {
            if plain_pre {
                assert(self.stack == hstack);
                assert(top as int == htop);
                assert(off.x == hoffx && off.y == hoffy);
            }
            if cont_pre {
                // the remaining motion is delivered to the parent, from
                // the boundary point to the destination
                let hl = hstack.len_sp();
                assert(self.stack.entries@.last() == hstack.entries@[hl - 2]);
                assert(top as int == parent_h);
                WidgetStack::lemma_offset_sum_same_rects(
                    self.arena,
                    old(self).arena,
                    self.stack.entries@,
                    hl - 2,
                );
                WidgetStack::lemma_offset_sum_prefix(
                    old(self).arena,
                    self.stack.entries@,
                    hstack.entries@,
                    hl - 2,
                );
                assert(hoffx == WidgetStack::offset_sum_x(
                    old(self).arena,
                    hstack.entries@,
                    hl - 2,
                ) + prect.min.x);
                assert(hoffy == WidgetStack::offset_sum_y(
                    old(self).arena,
                    hstack.entries@,
                    hl - 2,
                ) + prect.min.y);
                assert(off.x == poffx && off.y == poffy);
            }
        }
        let oldl = Point2 { x: old_gx - off.x, y: old_gy - off.y };
        let newl = Point2 { x: move_to.x - off.x, y: move_to.y - off.y };
        d.push(
            WidgetEventDelivery {
                widget: top,
                event: WidgetEvent::MouseMove {
                    old_pos: oldl,
                    new_pos: newl,
                    in_widget: true,
                    buttons_down: self.mouse_buttons_down.snapshot(),
                    buttons_down_in_widget: self.arena.tag(top).buttons_in_widget(),
                },
            },
        );
        let held = self.arena.tag(top).buttons_in_widget();
        let ghost pre = self.arena;
        proof {
            assert(self.arena.wf_node(top as int));
        }
        self.arena.set_mouse_state(top, MouseState::Hovering(newl, held));
        proof {
            assert(crate::stack::WidgetStack::same_shape(pre, self.arena));
            self.stack.lemma_wf_same_shape(pre, self.arena);
            if cross_pre {
                assert(d@[0] == d@.drop_last()[0]);
                assert(d@[1] == d@.drop_last()[1]);
                assert(crossing_pinned(
                    old(self).arena,
                    htop,
                    hoffx,
                    hoffy,
                    old(self).mouse_pos,
                    move_to,
                    d@,
                ));
            }
            if cont_pre {
                let e = d@[0].event.move_new_sp();
                assert(d@.len() == 3);
                assert(d@[2].widget == parent_h);
                assert(oldl.x as int == e.x + hoffx - poffx);
                assert(oldl == (Point2 {
                    x: (e.x + prect.min.x) as i64,
                    y: (e.y + prect.min.y) as i64,
                }));
                assert(newl == newp);
                assert(crossing_continued(
                    old(self).arena,
                    parent_h,
                    poffx,
                    poffy,
                    move_to,
                    d@,
                ));
                assert(self.stack.entries@ == hstack.entries@.drop_last());
            }
        }
        d
    }



    /// Route one window event into the tree: returns the node events
    /// owed, in delivery order. The platform contract promises that the
    /// pointer enters only while no active path exists and leaves only
    /// while one does.
    pub fn process_window_event(&mut self, event: WindowEvent) -> (d: Vec<WidgetEventDelivery>)
        requires
            old(self).wf(),
            match event {
                WindowEvent::MouseEnter(p) => old(self).stack.len_sp() == 0
                    && old(self).stack.idents@.len() == 0 && p.in_range(),
                WindowEvent::MouseExit(p) => old(self).stack.len_sp() >= 1 && p.in_range(),
                WindowEvent::MouseMove(p) => p.in_range(),
                WindowEvent::MouseDown(_) => true,
                WindowEvent::MouseUp(_) => true,
                WindowEvent::WindowResize(dims) => dims.wf(),
            },
        ensures
            final(self).wf(),
            final(self).id == old(self).id,
            event is WindowResize ==> (d@.len() == 0 && final(self).force_full_redraw
                && final(self).force_full_relayout && final(self).stack.len_sp() == 0),
            // entering: the root becomes the sole path entry and is owed
            // one mouse-enter at the entry position
            (event matches WindowEvent::MouseEnter(p)) ==> ({
                let p = event->MouseEnter_0;
                &&& final(self).mouse_pos == p
                &&& final(self).stack.len_sp() == 1
                &&& final(self).top_sp() == 0
                &&& d@.len() == 1
                &&& d@[0].widget == 0
                &&& d@[0].event matches WidgetEvent::MouseEnter {
                    enter_pos: e,
                    buttons_down: b,
                    buttons_down_in_widget: w,
                } && e == p && b@ == old(self).mouse_buttons_down@ && w@ == old(
                    self,
                ).arena.nodes@[0].update_tag.buttons_in_widget_sp()
            }),
            // leaving: every path node is owed an exit, deepest first, at
            // the exit position in its own frame, and the path clears
            (event matches WindowEvent::MouseExit(p)) ==> ({
                let p = event->MouseExit_0;
                &&& final(self).stack.len_sp() == 0
                &&& d@.len() == old(self).stack.len_sp()
                &&& (forall|i: int|
                    0 <= i < d@.len() ==> (#[trigger] d@[i]).widget == old(
                        self,
                    ).stack.entries@[old(self).stack.len_sp() - 1 - i].widget && d@[i].event
                        is MouseExit)
                &&& (forall|i: int|
                    0 <= i < d@.len() ==> (#[trigger] d@[i]).event.exit_pos_sp() == (Point2 {
                        x: (p.x - crate::stack::WidgetStack::offset_sum_x(
                            old(self).arena,
                            old(self).stack.entries@,
                            old(self).stack.len_sp() - 1 - i,
                        )) as i64,
                        y: (p.y - crate::stack::WidgetStack::offset_sum_y(
                            old(self).arena,
                            old(self).stack.entries@,
                            old(self).stack.len_sp() - 1 - i,
                        )) as i64,
                    }))
            }),
            // a press: delivered to the hit top in its frame, recorded in
            // its capture state, and summarized along the whole path
            (event matches WindowEvent::MouseDown(b)) ==> ({
                let b = event->MouseDown_0;
                &&& final(self).mouse_pos == old(self).mouse_pos
                &&& final(self).stack.len_sp() >= 1
                &&& d@.len() == 1
                &&& d@[0].widget == final(self).top_sp()
                &&& (d@[0].event matches WidgetEvent::MouseDown { pos: q, button: bb } && bb == b
                    && q == (Point2 {
                    x: (old(self).mouse_pos.x - final(self).stack.offset_x) as i64,
                    y: (old(self).mouse_pos.y - final(self).stack.offset_y) as i64,
                }))
                &&& final(self).mouse_buttons_down@.contains(b)
                &&& crate::stack::entry_tag(
                    final(self).arena,
                    final(self).stack.entries@.last(),
                ).mouse_state.mbseq_sp().contains(b)
                &&& (forall|i: int|
                    0 <= i < final(self).stack.len_sp() ==> crate::stack::entry_tag(
                        final(self).arena,
                        #[trigger] final(self).stack.entries@[i],
                    ).child_event_recv.has_button_sp(b))
            }),
            // a release: an in-widget release to the hit top; a holder
            // found through the summaries gets the out-of-widget release,
            // owed whenever a claiming chain stands; the class then
            // leaves the whole path
            (event matches WindowEvent::MouseUp(b)) ==> ({
                let b = event->MouseUp_0;
                &&& final(self).mouse_pos == old(self).mouse_pos
                &&& !final(self).mouse_buttons_down@.contains(b)
                &&& 1 <= d@.len() <= 2
                &&& (d@[0].event matches WidgetEvent::MouseUp { pos: _, in_widget: iw, button: bb }
                    && bb == b && iw)
                &&& (d@.len() == 2 ==> (d@[1].event matches WidgetEvent::MouseUp {
                    pos: _,
                    in_widget: iw2,
                    button: b2,
                } && b2 == b && !iw2))
                &&& (d@.len() == 2 ==> (0 <= d@[1].widget < old(self).arena.nodes@.len() && old(
                    self,
                ).arena.nodes@[d@[1].widget as int].update_tag.mouse_state.mbseq_sp().contains(b)))
                &&& (forall|i: int|
                    0 <= i < final(self).stack.len_sp() ==> !crate::stack::entry_tag(
                        final(self).arena,
                        #[trigger] final(self).stack.entries@[i],
                    ).child_event_recv.has_button_sp(b))
                &&& ({
                    let dent = old(self).descended_entries_sp();
                    let mask = ChildEventRecv::button_mask_sp(b);
                    &&& old(self).stack.len_sp() >= 1
                    &&& !old(self).arena.nodes@[dent.last().widget as int].update_tag.mouse_state.mbseq_sp().contains(
                        b,
                    )
                    &&& exists|i: int|
                        0 <= i < dent.len() && crate::stack::entry_tag(
                            old(self).arena,
                            #[trigger] dent[i],
                        ).summary_sp().intersects_sp(mask) && (forall|j: int|
                            i < j < dent.len() ==> !crate::stack::entry_tag(
                                old(self).arena,
                                #[trigger] dent[j],
                            ).summary_sp().intersects_sp(mask)) && WidgetStack::flags_reach_sp(
                            old(self).arena,
                            dent[i].widget as int,
                            mask,
                        )
                }) ==> d@.len() == 2
            }),
            // a motion: the window-leaving case, the plain move, the
            // exact crossing and its continuation, all against the
            // hit-confirmed path
            (event matches WindowEvent::MouseMove(p)) ==> ({
                let move_to = event->MouseMove_0;
                &&& final(self).mouse_pos == move_to
                &&& (!old(self).arena.nodes@[0].rect.contains_sp(move_to) ==> d@.len() == 0)
                &&& (({
                    let t = old(self).descended_top_sp();
                    let ox = old(self).descended_offx_sp();
                    let oy = old(self).descended_offy_sp();
                    let oldl = Point2 {
                        x: (old(self).mouse_pos.x - ox) as i64,
                        y: (old(self).mouse_pos.y - oy) as i64,
                    };
                    let newl = Point2 { x: (move_to.x - ox) as i64, y: (move_to.y - oy) as i64 };
                    &&& old(self).stack.len_sp() >= 1
                    &&& old(self).arena.nodes@[t].kind is Leaf
                    &&& old(self).arena.nodes@[t].rect.contains_sp(oldl)
                    &&& old(self).arena.nodes@[t].rect.contains_sp(newl)
                    &&& old(self).arena.nodes@[0].rect.contains_sp(move_to)
                }) ==> ({
                    let t = old(self).descended_top_sp();
                    let ox = old(self).descended_offx_sp();
                    let oy = old(self).descended_offy_sp();
                    let oldl = Point2 {
                        x: (old(self).mouse_pos.x - ox) as i64,
                        y: (old(self).mouse_pos.y - oy) as i64,
                    };
                    let newl = Point2 { x: (move_to.x - ox) as i64, y: (move_to.y - oy) as i64 };
                    &&& d@.len() == 1
                    &&& d@[0].widget == t
                    &&& d@[0].event.is_mouse_move_sp()
                    &&& d@[0].event.move_old_sp() == oldl
                    &&& d@[0].event.move_new_sp() == newl
                    &&& d@[0].event.move_in_widget_sp()
                    &&& final(self).stack.entries@ == old(self).descended_entries_sp()
                }))
                &&& (({
                    let t = old(self).descended_top_sp();
                    let ox = old(self).descended_offx_sp();
                    let oy = old(self).descended_offy_sp();
                    let oldl = Point2 {
                        x: (old(self).mouse_pos.x - ox) as i64,
                        y: (old(self).mouse_pos.y - oy) as i64,
                    };
                    let newl = Point2 { x: (move_to.x - ox) as i64, y: (move_to.y - oy) as i64 };
                    &&& old(self).stack.len_sp() >= 1
                    &&& old(self).arena.nodes@[t].kind is Leaf
                    &&& old(self).arena.nodes@[t].rect.contains_sp(oldl)
                    &&& !old(self).arena.nodes@[t].rect.contains_sp(newl)
                    &&& old(self).arena.nodes@[0].rect.contains_sp(move_to)
                }) ==> crossing_pinned(
                    old(self).arena,
                    old(self).descended_top_sp(),
                    old(self).descended_offx_sp(),
                    old(self).descended_offy_sp(),
                    old(self).mouse_pos,
                    move_to,
                    d@,
                ))
                &&& (({
                    let dent = old(self).descended_entries_sp();
                    let t = old(self).descended_top_sp();
                    let ox = old(self).descended_offx_sp();
                    let oy = old(self).descended_offy_sp();
                    let oldl = Point2 {
                        x: (old(self).mouse_pos.x - ox) as i64,
                        y: (old(self).mouse_pos.y - oy) as i64,
                    };
                    let newl = Point2 { x: (move_to.x - ox) as i64, y: (move_to.y - oy) as i64 };
                    let parent = dent[dent.len() - 2].widget as int;
                    let prect = old(self).arena.nodes@[parent].rect;
                    let newp = Point2 {
                        x: (move_to.x - (ox - prect.min.x)) as i64,
                        y: (move_to.y - (oy - prect.min.y)) as i64,
                    };
                    &&& old(self).stack.len_sp() >= 1
                    &&& dent.len() >= 2
                    &&& old(self).arena.nodes@[t].kind is Leaf
                    &&& old(self).arena.nodes@[t].rect.contains_sp(oldl)
                    &&& !old(self).arena.nodes@[t].rect.contains_sp(newl)
                    &&& old(self).arena.nodes@[0].rect.contains_sp(move_to)
                    &&& prect.contains_sp(newp)
                    &&& (forall|k: int|
                        0 <= k < old(self).arena.nodes@[parent].children@.len() ==> !old(
                            self,
                        ).arena.nodes@[(#[trigger] old(
                            self,
                        ).arena.nodes@[parent].children@[k]).widget as int].rect.contains_sp(
                            Point2 {
                                x: (newp.x - prect.min.x) as i64,
                                y: (newp.y - prect.min.y) as i64,
                            },
                        ))
                }) ==> ({
                    let dent = old(self).descended_entries_sp();
                    let parent = dent[dent.len() - 2].widget as int;
                    let prect = old(self).arena.nodes@[parent].rect;
                    &&& crossing_continued(
                        old(self).arena,
                        parent,
                        old(self).descended_offx_sp() - prect.min.x,
                        old(self).descended_offy_sp() - prect.min.y,
                        move_to,
                        d@,
                    )
                    &&& final(self).stack.entries@ == dent.drop_last()
                }))
            }),
    {
        match event {
            WindowEvent::MouseMove(p) => self.handle_mouse_move(p),
            WindowEvent::MouseEnter(p) => self.handle_mouse_enter(p),
            WindowEvent::MouseExit(p) => self.handle_mouse_exit(p),
            WindowEvent::MouseDown(b) => self.handle_mouse_down(b),
            WindowEvent::MouseUp(b) => self.handle_mouse_up(b),
            WindowEvent::WindowResize(dims) => {
                self.handle_window_resize(dims);
                Vec::new()
            },
        }
    }

    /// Remove `button` from the capture state of node `h`, keeping its
    /// hover standing; a tracking node that holds nothing afterwards
    /// becomes untracked.
    #[verifier::rlimit(30)]
    fn release_capture(&mut self, h: usize, fallback_pos: Point2, button: MouseButton)
        requires
            old(self).wf(),
            old(self).arena.valid_handle(h as int),
        ensures
            final(self).wf(),
            final(self).id == old(self).id,
            final(self).stack == old(self).stack,
            final(self).mouse_pos == old(self).mouse_pos,
            final(self).mouse_buttons_down == old(self).mouse_buttons_down,
            final(self).actions == old(self).actions,
            final(self).force_full_redraw == old(self).force_full_redraw,
            final(self).force_full_relayout == old(self).force_full_relayout,
            final(self).arena.nodes@.len() == old(self).arena.nodes@.len(),
            forall|n: int|
                0 <= n < old(self).arena.nodes@.len() && n != h as int
                    ==> final(self).arena.nodes@[n] == old(self).arena.nodes@[n],
            final(self).arena.nodes@[h as int].rect == old(self).arena.nodes@[h as int].rect,
            final(self).arena.nodes@[h as int].kind == old(self).arena.nodes@[h as int].kind,
            final(self).arena.nodes@[h as int].children@ == old(
                self,
            ).arena.nodes@[h as int].children@,
            final(self).arena.nodes@[h as int].update_tag.widget_id == old(
                self,
            ).arena.nodes@[h as int].update_tag.widget_id,
            final(self).arena.nodes@[h as int].update_tag.last_root == old(
                self,
            ).arena.nodes@[h as int].update_tag.last_root,
            final(self).arena.nodes@[h as int].update_tag.render_self == old(
                self,
            ).arena.nodes@[h as int].update_tag.render_self,
            final(self).arena.nodes@[h as int].update_tag.update_child == old(
                self,
            ).arena.nodes@[h as int].update_tag.update_child,
            final(self).arena.nodes@[h as int].update_tag.update_layout == old(
                self,
            ).arena.nodes@[h as int].update_tag.update_layout,
            final(self).arena.nodes@[h as int].update_tag.update_timer == old(
                self,
            ).arena.nodes@[h as int].update_tag.update_timer,
            final(self).arena.nodes@[h as int].update_tag.has_keyboard_focus == old(
                self,
            ).arena.nodes@[h as int].update_tag.has_keyboard_focus,
            final(self).arena.nodes@[h as int].update_tag.child_event_recv == old(
                self,
            ).arena.nodes@[h as int].update_tag.child_event_recv,
            !final(self).arena.nodes@[h as int].update_tag.mouse_state.mbseq_sp().contains(button),
    {
        proof {
            assert(self.arena.wf_node(h as int));
        }
        let mut held = self.arena.tag(h).buttons_in_widget();
        held.release_button(button);
        let hovering: bool;
        let pos: Point2;
        match &self.arena.tag(h).mouse_state {
            MouseState::Hovering(p, _) => {
                hovering = true;
                pos = *p;
            },
            MouseState::Tracking(p, _) => {
                hovering = false;
                pos = *p;
            },
            MouseState::Untracked => {
                hovering = false;
                pos = fallback_pos;
            },
        }
        let next_state = if hovering {
            MouseState::Hovering(pos, held)
        } else if held.len() > 0 {
            MouseState::Tracking(pos, held)
        } else {
            MouseState::Untracked
        };
        let ghost pre = self.arena;
        self.arena.set_mouse_state(h, next_state);
        proof {
            assert(crate::stack::WidgetStack::same_shape(pre, self.arena));
            self.stack.lemma_wf_same_shape(pre, self.arena);
        }
    }

    /// A button was released. The deepest node under the pointer gets
    /// the release first, as an in-widget event. If it was not the one
    /// holding the button, the holder is searched for through the
    /// interest summaries and, when found, notified with an
    /// out-of-widget release; an orphaned release reaches nobody. The
    /// button's class is then cleared from the whole active path.
    #[verifier::rlimit(60)]
    pub fn handle_mouse_up(&mut self, button: MouseButton) -> (d: Vec<WidgetEventDelivery>)
        requires
            old(self).wf(),
        ensures
            final(self).wf(),
            final(self).id == old(self).id,
            final(self).mouse_pos == old(self).mouse_pos,
            final(self).stack.len_sp() >= 1,
            !final(self).mouse_buttons_down@.contains(button),
            1 <= d@.len() <= 2,
            d@[0].event matches WidgetEvent::MouseUp { pos: _, in_widget: iw, button: b } && b
                == button && iw,
            d@.len() == 2 ==> (d@[1].event matches WidgetEvent::MouseUp {
                pos: _,
                in_widget: iw2,
                button: b2,
            } && b2 == button && !iw2),
            // an out-of-widget release goes only to a node that held the
            // button when the event arrived
            d@.len() == 2 ==> (0 <= d@[1].widget < old(self).arena.nodes@.len() && old(
                self,
            ).arena.nodes@[d@[1].widget as int].update_tag.mouse_state.mbseq_sp().contains(button)),
            // afterwards no node of the active path summarizes the button
            forall|i: int|
                0 <= i < final(self).stack.len_sp() ==> !crate::stack::entry_tag(
                    final(self).arena,
                    #[trigger] final(self).stack.entries@[i],
                ).child_event_recv.has_button_sp(button),
            // the out-of-widget delivery is owed: when the hit-confirmed
            // top does not hold the button but the deepest level of the
            // confirmed path whose summary claims its class roots a
            // claiming chain, the holder is found and notified
            ({
                let dent = old(self).descended_entries_sp();
                let mask = ChildEventRecv::button_mask_sp(button);
                &&& old(self).stack.len_sp() >= 1
                &&& !old(self).arena.nodes@[dent.last().widget as int].update_tag.mouse_state.mbseq_sp().contains(
                    button,
                )
                &&& exists|i: int|
                    0 <= i < dent.len() && entry_tag(
                        old(self).arena,
                        #[trigger] dent[i],
                    ).summary_sp().intersects_sp(mask) && (forall|j: int|
                        i < j < dent.len() ==> !entry_tag(
                            old(self).arena,
                            #[trigger] dent[j],
                        ).summary_sp().intersects_sp(mask))
                        && WidgetStack::flags_reach_sp(
                        old(self).arena,
                        dent[i].widget as int,
                        mask,
                    )
            }) ==> d@.len() == 2,
    {
        if self.stack.is_empty() {
            self.stack.push_root(&self.arena);
        }
        self.stack.move_to_point(&self.arena, self.mouse_pos);
        let ghost hstack_up = self.stack;
        let ghost dent_up = old(self).descended_entries_sp();
        let ghost maskg = ChildEventRecv::button_mask_sp(button);
        proof {
            self.stack.lemma_len_bounded(self.arena);
            crate::stack::WidgetStack::lemma_offset_sum_bound(
                self.arena,
                self.stack.entries@,
                self.stack.len_sp() - 1,
            );
            if old(self).stack.len_sp() >= 1 {
                assert(hstack_up.entries@ == dent_up);
            }
        }
        let ghost owed = old(self).stack.len_sp() >= 1 && !old(
            self,
        ).arena.nodes@[dent_up.last().widget as int].update_tag.mouse_state.mbseq_sp().contains(
            button,
        ) && (exists|i: int|
            0 <= i < dent_up.len() && entry_tag(
                old(self).arena,
                #[trigger] dent_up[i],
            ).summary_sp().intersects_sp(maskg) && (forall|j: int|
                i < j < dent_up.len() ==> !entry_tag(
                    old(self).arena,
                    #[trigger] dent_up[j],
                ).summary_sp().intersects_sp(maskg)) && WidgetStack::flags_reach_sp(
                old(self).arena,
                dent_up[i].widget as int,
                maskg,
            ));
        let top = self.stack.top();
        let off = self.stack.top_parent_offset();
        let local = Point2 { x: self.mouse_pos.x - off.x, y: self.mouse_pos.y - off.y };
        let mut d: Vec<WidgetEventDelivery> = Vec::new();
        d.push(
            WidgetEventDelivery {
                widget: top,
                event: WidgetEvent::MouseUp { pos: local, in_widget: true, button },
            },
        );
        self.mouse_buttons_down.release_button(button);
        proof {
            assert(self.arena.wf_node(top as int));
        }
        let had = self.arena.tag(top).buttons_in_widget().contains(button);
        proof {
            if owed {
                // the confirmed top does not hold the button
                assert(top as int == dent_up.last().widget as int);
                assert(!had);
            }
        }
        if had {
            self.release_capture(top, local, button);
        }
        let mask = ChildEventRecv::mouse_button_mask(button);
        if !had {
            // find the node still holding the button, if any, through
            // the propagated interest summaries
            let ghost pre_search = self.arena;
            let found = self.stack.move_over_flags(&mut self.arena, mask);
            proof {
                if owed {
                    // a deepest claiming level that roots a chain makes
                    // the search succeed
                    let i = choose|i: int|
                        0 <= i < dent_up.len() && entry_tag(
                            old(self).arena,
                            #[trigger] dent_up[i],
                        ).summary_sp().intersects_sp(maskg) && (forall|j: int|
                            i < j < dent_up.len() ==> !entry_tag(
                                old(self).arena,
                                #[trigger] dent_up[j],
                            ).summary_sp().intersects_sp(maskg)) && WidgetStack::flags_reach_sp(
                            old(self).arena,
                            dent_up[i].widget as int,
                            maskg,
                        );
                    assert(hstack_up.entries@[i] == dent_up[i]);
                    assert(entry_tag(
                        old(self).arena,
                        hstack_up.entries@[i],
                    ).summary_sp().intersects_sp(maskg));
                    assert forall|j: int| i < j < hstack_up.len_sp() implies !entry_tag(
                        old(self).arena,
                        #[trigger] hstack_up.entries@[j],
                    ).summary_sp().intersects_sp(maskg) by {
                        assert(hstack_up.entries@[j] == dent_up[j]);
                    }
                    assert(found == WidgetStack::flags_reach_sp(
                        old(self).arena,
                        hstack_up.entries@[i].widget as int,
                        maskg,
                    ));
                    assert(found);
                }
            }
            if found {
                proof {
                    self.stack.lemma_len_bounded(self.arena);
                    crate::stack::WidgetStack::lemma_offset_sum_bound(
                        self.arena,
                        self.stack.entries@,
                        self.stack.len_sp() - 1,
                    );
                }
                let holder = self.stack.top();
                proof {
                    let tag = crate::stack::entry_tag(self.arena, self.stack.entries@.last());
                    crate::cer::lemma_from_mbseq_buttons_only(tag.mouse_state.mbseq_sp());
                    assert(tag.own_flags_sp().intersect_sp(mask).has_button_sp(button)
                        || tag.own_flags_sp().intersect_sp(mask).is_empty_sp());
                    crate::cer::lemma_from_mbseq_has_button(tag.mouse_state.mbseq_sp(), button);
                    assert(tag.mouse_state.mbseq_sp().contains(button));
                    // the search only re-stamped tags, so the holder held
                    // the button when the event arrived
                    assert(self.arena.nodes@[holder as int] == pre_search.nodes@[holder as int]
                        || self.arena.nodes@[holder as int] == crate::stack::marked_node(
                        pre_search.nodes@[holder as int]));
                    assert(pre_search.nodes@[holder as int].update_tag.mouse_state.mbseq_sp().contains(
                        button,
                    ));
                }
                let hoff = self.stack.top_parent_offset();
                let hlocal = Point2 {
                    x: self.mouse_pos.x - hoff.x,
                    y: self.mouse_pos.y - hoff.y,
                };
                d.push(
                    WidgetEventDelivery {
                        widget: holder,
                        event: WidgetEvent::MouseUp { pos: hlocal, in_widget: false, button },
                    },
                );
                // release the holder's capture
                self.release_capture(holder, hlocal, button);
            }
        }
        // clear the button's class from the whole active path
        let len = self.stack.len();
        let ghost stack_here = self.stack;
        let ghost d_here = d@;
        let mut i: usize = 0;
        while i < len
            invariant
                self.wf(),
                self.stack == stack_here,
                d@ == d_here,
                len == self.stack.len_sp(),
                0 <= i <= len,
                mask == ChildEventRecv::button_mask_sp(button),
                self.id == old(self).id,
                self.mouse_pos == old(self).mouse_pos,
                !self.mouse_buttons_down@.contains(button),
                forall|k: int|
                    0 <= k < i ==> !crate::stack::entry_tag(
                        self.arena,
                        #[trigger] self.stack.entries@[k],
                    ).child_event_recv.has_button_sp(button),
            decreases len - i,
        {
            let h = self.stack.entries[i].widget;
            let ghost pre = self.arena;
            self.arena.remove_cer(h, mask);
            proof {
                assert(crate::stack::WidgetStack::same_shape(pre, self.arena));
                self.stack.lemma_wf_same_shape(pre, self.arena);
                assert forall|k: int|
                    0 <= k <= i implies !crate::stack::entry_tag(
                    self.arena,
                    #[trigger] self.stack.entries@[k],
                ).child_event_recv.has_button_sp(button) by {
                    if k < i && self.stack.entries@[k].widget != h {
                        assert(self.arena.nodes@[self.stack.entries@[k].widget as int] == pre.nodes@[
                            self.stack.entries@[k].widget as int]);
                    }
                }
            }
            i += 1;
        }
        d
    }

    /// After a dispatch: if any node on the active path reports pending
    /// work, mark every path node's update-child bit, so the next
    /// render pass descends to all of them; and if the dispatch
    /// produced actions, invalidate the cached path, since the handlers
    /// that drained them may restructure the tree.
    pub fn finish_dispatch(&mut self)
        requires
            old(self).wf(),
        ensures
            final(self).wf(),
            final(self).id == old(self).id,
            final(self).mouse_pos == old(self).mouse_pos,
            final(self).actions == old(self).actions,
            (exists|j: int|
                0 <= j < old(self).stack.len_sp() && crate::stack::entry_tag(
                    old(self).arena,
                    #[trigger] old(self).stack.entries@[j],
                ).is_dirty_sp(old(self).id)) ==> forall|i: int|
                0 <= i < old(self).stack.len_sp() ==> crate::stack::entry_tag(
                    final(self).arena,
                    #[trigger] old(self).stack.entries@[i],
                ).update_child,
            old(self).actions@.len() > 0 ==> final(self).stack.len_sp() == 0,
    {
        let len = self.stack.len();
        let mut any_dirty = false;
        let mut i: usize = 0;
        while i < len
            invariant
                self.wf(),
                *self == *old(self),
                len == self.stack.len_sp(),
                0 <= i <= len,
                any_dirty == exists|j: int|
                    0 <= j < i && crate::stack::entry_tag(
                        self.arena,
                        #[trigger] self.stack.entries@[j],
                    ).is_dirty_sp(self.id),
            decreases len - i,
        {
            let h = self.stack.entries[i].widget;
            let needs = self.arena.tag(h).needs_update(self.stack.root_id);
            let dirty = needs.render_self || needs.update_child || needs.update_timer
                || needs.update_layout;
            proof {
                if dirty {
                    assert(crate::stack::entry_tag(
                        self.arena,
                        self.stack.entries@[i as int],
                    ).is_dirty_sp(self.id));
                }
            }
            any_dirty = any_dirty || dirty;
            i += 1;
        }
        if any_dirty {
            let ghost mid_arena = self.arena;
            let mut k: usize = 0;
            while k < len
                invariant
                    self.wf(),
                    self.stack == old(self).stack,
                    self.id == old(self).id,
                    self.mouse_pos == old(self).mouse_pos,
                    self.mouse_buttons_down == old(self).mouse_buttons_down,
                    self.actions == old(self).actions,
                    self.force_full_redraw == old(self).force_full_redraw,
                    self.force_full_relayout == old(self).force_full_relayout,
                    len == self.stack.len_sp(),
                    0 <= k <= len,
                    forall|i2: int|
                        0 <= i2 < k ==> crate::stack::entry_tag(
                            self.arena,
                            #[trigger] self.stack.entries@[i2],
                        ).update_child,
                decreases len - k,
            {
                let h = self.stack.entries[k].widget;
                let ghost pre = self.arena;
                self.arena.mark_update_child(h);
                proof {
                    assert(crate::stack::WidgetStack::same_shape(pre, self.arena));
                    self.stack.lemma_wf_same_shape(pre, self.arena);
                    assert forall|i2: int|
                        0 <= i2 <= k implies crate::stack::entry_tag(
                        self.arena,
                        #[trigger] self.stack.entries@[i2],
                    ).update_child by {
                        if i2 < k && self.stack.entries@[i2].widget != h {
                            assert(self.arena.nodes@[self.stack.entries@[i2].widget as int]
                                == pre.nodes@[self.stack.entries@[i2].widget as int]);
                        }
                    }
                }
                k += 1;
            }
        }
        if self.actions.len() > 0 {
            self.stack.clear();
        }
    }

    /// The dirty-aware render pass: when the root's tag, joined with
    /// the forced flags, demands no redraw, nothing at all is emitted
    /// or touched; otherwise layout, render and descent steps are
    /// produced in traversal order and every processed node is stamped
    /// for this generation.
    pub fn draw<L: LayoutSolver>(&mut self, renderer_forces_redraw: bool, solver: &mut L) -> (steps:
        Vec<RenderStep>)
        requires
            old(self).wf(),
        ensures
            final(self).wf(),
            final(self).id == old(self).id,
            !final(self).force_full_redraw,
            !final(self).force_full_relayout,
            ({
                let needs = old(self).arena.nodes@[0].update_tag.needs_update_sp(old(self).id);
                !old(self).force_full_redraw && !old(self).force_full_relayout
                    && !renderer_forces_redraw && !needs.render_self && !needs.update_child
            }) ==> (steps@.len() == 0 && final(self).arena == old(self).arena && final(self).stack
                == old(self).stack),
            ({
                let needs = old(self).arena.nodes@[0].update_tag.needs_update_sp(old(self).id);
                old(self).force_full_redraw || renderer_forces_redraw || needs.render_self
                    || needs.update_child
            }) ==> final(self).arena.nodes@[0].update_tag.last_root == old(self).id.0,
            ({
                let needs = old(self).arena.nodes@[0].update_tag.needs_update_sp(old(self).id);
                old(self).force_full_redraw || renderer_forces_redraw || needs.render_self
            }) ==> steps@.contains(RenderStep::Render { widget: 0 }),
            // on a dirty pass the emitted steps are exactly the root's
            // own, followed by the walk over its children
            ({
                let fr = old(self).force_full_redraw || renderer_forces_redraw;
                let needs = crate::render::joined_needs_sp(
                    old(self).arena.nodes@[0].update_tag,
                    old(self).id,
                    fr,
                    old(self).force_full_relayout,
                );
                needs.render_self || needs.update_child
            }) ==> ({
                let fr = old(self).force_full_redraw || renderer_forces_redraw;
                let frl = old(self).force_full_relayout;
                let needs = crate::render::joined_needs_sp(
                    old(self).arena.nodes@[0].update_tag,
                    old(self).id,
                    fr,
                    frl,
                );
                let is_parent = old(self).arena.nodes@[0].kind is Parent;
                &&& steps@ == (if needs.update_layout && is_parent {
                    seq![RenderStep::Layout { widget: 0usize }]
                } else {
                    Seq::empty()
                }) + (if needs.render_self {
                    seq![RenderStep::Render { widget: 0usize }]
                } else {
                    Seq::empty()
                }) + (if needs.update_child && is_parent {
                    crate::render::walk_steps_sp(
                        old(self).arena,
                        0,
                        old(self).arena.nodes@[0].children@.len() as int,
                        old(self).id,
                        fr,
                        frl,
                    )
                } else {
                    Seq::empty()
                })
                &&& final(self).arena.nodes@[0].update_tag == old(
                    self,
                ).arena.nodes@[0].update_tag.mark_updated_sp(old(self).id)
                // exactly the nodes the walk covers are stamped
                &&& (forall|n: int|
                    1 <= n < old(self).arena.nodes@.len()
                        ==> (#[trigger] final(self).arena.nodes@[n]).update_tag == (if is_parent
                        && needs.update_child && crate::render::walk_visits_sp(
                        old(self).arena,
                        0,
                        old(self).arena.nodes@[0].children@.len() as int,
                        n,
                        old(self).id,
                        fr,
                    ) {
                        old(self).arena.nodes@[n].update_tag.mark_updated_sp(old(self).id)
                    } else {
                        old(self).arena.nodes@[n].update_tag
                    }))
                // a rectangle moves only under a node handed to the solver
                &&& (forall|n: int|
                    1 <= n < old(self).arena.nodes@.len() && !(is_parent && needs.update_layout
                        && old(self).arena.is_child_sp(0, n)) && !(is_parent && needs.update_child
                        && crate::render::walk_may_move_sp(
                        old(self).arena,
                        0,
                        old(self).arena.nodes@[0].children@.len() as int,
                        n,
                        old(self).id,
                        fr,
                        frl,
                    )) ==> (#[trigger] final(self).arena.nodes@[n]).rect == old(
                        self,
                    ).arena.nodes@[n].rect)
            }),
            final(self).arena.nodes@[0].rect == old(self).arena.nodes@[0].rect,
    {
        let force_redraw = self.force_full_redraw || renderer_forces_redraw;
        let force_relayout = self.force_full_relayout;
        let mut needs = self.arena.tag(0).needs_update(self.id);
        needs.render_self = needs.render_self || force_redraw;
        needs.update_child = needs.update_child || force_redraw;
        needs.update_layout = needs.update_layout || force_relayout;
        let mut steps: Vec<RenderStep> = Vec::new();
        let ghost entry = old(self).arena;
        let ghost fr_g = old(self).force_full_redraw || renderer_forces_redraw;
        let ghost frl_g = old(self).force_full_relayout;
        let ghost numch0 = entry.nodes@[0].children@.len() as int;
        proof {
            assert(needs == crate::render::joined_needs_sp(
                entry.nodes@[0].update_tag,
                old(self).id,
                fr_g,
                frl_g,
            ));
        }
        if needs.render_self || needs.update_child {
            let is_parent = match self.arena.kind(0) {
                WidgetKind::Parent => true,
                WidgetKind::Leaf => false,
            };
            if needs.update_layout && is_parent {
                solver.update_child_layout(&mut self.arena, 0);
                steps.push(RenderStep::Layout { widget: 0 });
            }
            if needs.render_self {
                steps.push(RenderStep::Render { widget: 0 });
            }
            let ghost mid = self.arena;
            let ghost mid_steps = steps@;
            proof {
                // nothing so far touched a tag, a kind or a child list
                assert forall|m: int|
                    0 <= m < entry.nodes@.len() implies {
                    &&& (#[trigger] mid.nodes@[m]).update_tag == entry.nodes@[m].update_tag
                    &&& mid.nodes@[m].kind == entry.nodes@[m].kind
                    &&& mid.nodes@[m].children@ == entry.nodes@[m].children@
                } by {}
            }
            if needs.update_child && is_parent {
                render_children(
                    &mut self.arena,
                    0,
                    self.id,
                    force_redraw,
                    force_relayout,
                    solver,
                    &mut steps,
                );
                proof {
                    // restate the walk's guarantees over the pre-pass tree
                    crate::render::lemma_walk_same_tags(
                        entry,
                        mid,
                        0,
                        numch0,
                        0,
                        old(self).id,
                        fr_g,
                        frl_g,
                    );
                    assert(steps@ == mid_steps + crate::render::walk_steps_sp(
                        entry,
                        0,
                        numch0,
                        old(self).id,
                        fr_g,
                        frl_g,
                    ));
                    assert forall|n: int|
                        0 <= n < entry.nodes@.len() implies (#[trigger] self.arena.nodes@[n]).update_tag
                        == (if crate::render::walk_visits_sp(
                        entry,
                        0,
                        numch0,
                        n,
                        old(self).id,
                        fr_g,
                    ) {
                        entry.nodes@[n].update_tag.mark_updated_sp(old(self).id)
                    } else {
                        entry.nodes@[n].update_tag
                    }) by {
                        crate::render::lemma_walk_same_tags(
                            entry,
                            mid,
                            0,
                            numch0,
                            n,
                            old(self).id,
                            fr_g,
                            frl_g,
                        );
                    }
                    assert forall|n: int|
                        0 <= n < entry.nodes@.len() && !crate::render::walk_may_move_sp(
                            entry,
                            0,
                            numch0,
                            n,
                            old(self).id,
                            fr_g,
                            frl_g,
                        ) implies (#[trigger] self.arena.nodes@[n]).rect == mid.nodes@[n].rect by {
                        if crate::render::walk_may_move_sp(
                            mid,
                            0,
                            numch0,
                            n,
                            old(self).id,
                            fr_g,
                            frl_g,
                        ) {
                            let p = choose|p: int|
                                0 <= p < mid.nodes@.len() && #[trigger] crate::render::walk_layouts_sp(
                                    mid,
                                    0,
                                    numch0,
                                    p,
                                    old(self).id,
                                    fr_g,
                                    frl_g,
                                ) && mid.is_child_sp(p, n);
                            crate::render::lemma_walk_same_tags(
                                entry,
                                mid,
                                0,
                                numch0,
                                p,
                                old(self).id,
                                fr_g,
                                frl_g,
                            );
                            assert(entry.nodes@[p].children@ == mid.nodes@[p].children@);
                            assert(entry.is_child_sp(p, n));
                            assert(crate::render::walk_may_move_sp(
                                entry,
                                0,
                                numch0,
                                n,
                                old(self).id,
                                fr_g,
                                frl_g,
                            ));
                            assert(false);
                        }
                    }
                }
            }
            let ghost pre_mark = self.arena;
            proof {
                // the walk never stamps the root itself: everything it
                // covers lies below one of the root's children
                if crate::render::walk_visits_sp(entry, 0, numch0, 0, old(self).id, fr_g) {
                    crate::render::lemma_walk_in_subtree(
                        entry,
                        0,
                        numch0,
                        0,
                        old(self).id,
                        fr_g,
                        frl_g,
                    );
                    let j = choose|j: int|
                        0 <= j < numch0 && entry.in_subtree(
                            (#[trigger] entry.nodes@[0].children@[j]).widget as int,
                            0,
                        );
                    assert(entry.wf_node(0));
                    entry.lemma_subtree_ge(entry.nodes@[0].children@[j].widget as int, 0);
                    assert(false);
                }
                // the root's own rectangle never moves: it is nobody's child
                if crate::render::walk_may_move_sp(entry, 0, numch0, 0, old(self).id, fr_g, frl_g) {
                    let p = choose|p: int|
                        0 <= p < entry.nodes@.len() && #[trigger] crate::render::walk_layouts_sp(
                            entry,
                            0,
                            numch0,
                            p,
                            old(self).id,
                            fr_g,
                            frl_g,
                        ) && entry.is_child_sp(p, 0);
                    let c = choose|c: int|
                        0 <= c < entry.nodes@[p].children@.len()
                            && #[trigger] entry.nodes@[p].children@[c].widget == 0;
                    assert(entry.wf_node(p));
                    assert(false);
                }
                if entry.is_child_sp(0int, 0int) {
                    let c = choose|c: int|
                        0 <= c < entry.nodes@[0].children@.len()
                            && #[trigger] entry.nodes@[0].children@[c].widget == 0;
                    assert(entry.wf_node(0));
                    assert(false);
                }
            }
            self.arena.mark_updated(0, self.id);
            // the pass may have moved rectangles, so the cached path's
            // offsets can be stale: rebuild it on the next hit-test
            self.stack.clear();
            proof {
                if needs.render_self {
                    let ridx = mid_steps.len() - 1;
                    assert(mid_steps[ridx] == RenderStep::Render { widget: 0 });
                    assert(steps@[ridx] == RenderStep::Render { widget: 0 });
                    assert(steps@.contains(RenderStep::Render { widget: 0 }));
                }
                if !(needs.update_child && is_parent) {
                    assert(steps@ =~= mid_steps + Seq::<RenderStep>::empty());
                }
                assert(steps@ =~= (if needs.update_layout && is_parent {
                    seq![RenderStep::Layout { widget: 0usize }]
                } else {
                    Seq::empty()
                }) + (if needs.render_self {
                    seq![RenderStep::Render { widget: 0usize }]
                } else {
                    Seq::empty()
                }) + (if needs.update_child && is_parent {
                    crate::render::walk_steps_sp(entry, 0, numch0, old(self).id, fr_g, frl_g)
                } else {
                    Seq::empty()
                }));
            }
        }
        self.force_full_redraw = false;
        self.force_full_relayout = false;
        steps
    }
}

} // verus!
