//! Per-node dirty/interest state: the update tag, the generation stamps
//! it is compared against, and the identifier registry that issues
//! process-unique node and root identities.

use vstd::prelude::*;
use crate::bounds::Point2;
use crate::buttons::MouseButton;
use crate::buttons::MouseButtonSequence;
use crate::cer::ChildEventRecv;

verus! {

/// Stamp value that equals no issued root generation: a tag carrying it
/// always reports its raw dirty bits.
pub const NO_GENERATION: u64 = 0xffff_ffff_ffff_ffff;

/// Process-unique generation of a root; never reused while the process
/// lives.
#[derive(Debug, Clone, Copy, PartialEq, Eq, Hash, Structural)]
pub struct RootID(pub u64);

/// Stable per-node identity token.
#[derive(Debug, Clone, Copy, PartialEq, Eq, Hash, Structural)]
pub struct WidgetID(pub u64);

/// Monotonic counter that issues root and widget identities; owned
/// explicitly by the embedder and passed to construction.
#[derive(Debug, Clone, PartialEq, Eq)]
pub struct IdRegistry {
    pub next: u64,
}

impl IdRegistry {
    pub fn new() -> (r: IdRegistry)
        ensures
            r.next == 0,
    {
        IdRegistry { next: 0 }
    }

    pub fn fresh_root_id(&mut self) -> (r: RootID)
        requires
            old(self).next < NO_GENERATION,
        ensures
            r == RootID(old(self).next),
            final(self).next == old(self).next + 1,
            r.0 != NO_GENERATION,
    {
        let id = self.next;
        self.next = self.next + 1;
        RootID(id)
    }

    pub fn fresh_widget_id(&mut self) -> (r: WidgetID)
        requires
            old(self).next < NO_GENERATION,
        ensures
            r == WidgetID(old(self).next),
            final(self).next == old(self).next + 1,
    {
        let id = self.next;
        self.next = self.next + 1;
        WidgetID(id)
    }
}

/// The work a node needs, as decoded against a root generation.
#[derive(Debug, Clone, Copy, PartialEq, Eq, Hash, Structural)]
pub struct Update {
    pub render_self: bool,
    pub update_child: bool,
    pub update_timer: bool,
    pub update_layout: bool,
}

impl Update {
    /// No work at all.
    pub open spec fn none_sp() -> Update {
        Update { render_self: false, update_child: false, update_timer: false, update_layout: false }
    }

    pub fn none() -> (r: Update)
        ensures
            r == Update::none_sp(),
    {
        Update { render_self: false, update_child: false, update_timer: false, update_layout: false }
    }

    /// Whether any of the redraw-relevant kinds of work is needed.
    pub fn needs_redraw(self) -> (r: bool)
        ensures
            r == (self.render_self || self.update_child || self.update_layout),
    {
        self.render_self || self.update_child || self.update_layout
    }
}

impl Default for Update {
    fn default() -> (r: Update)
        ensures
            r == Update::none_sp(),
    {
        Update::none()
    }
}

/// Whether and how a node currently receives pointer events.
#[derive(Debug, Clone, PartialEq, Eq)]
pub enum MouseState {
    /// The pointer is over the node; the position is in the node's
    /// parent frame, the sequence holds the buttons pressed in it.
    Hovering(Point2, MouseButtonSequence),
    /// The pointer has left the node but buttons pressed in it are
    /// still held, so it keeps receiving their events.
    Tracking(Point2, MouseButtonSequence),
    /// The node is not aware of the pointer and receives no events.
    Untracked,
}

impl MouseState {
    /// The buttons pressed while the pointer was in the node.
    pub open spec fn mbseq_sp(self) -> Seq<MouseButton> {
        match self {
            MouseState::Hovering(_, seq) => seq@,
            MouseState::Tracking(_, seq) => seq@,
            MouseState::Untracked => Seq::<MouseButton>::empty(),
        }
    }

    pub open spec fn wf(self) -> bool {
        match self {
            MouseState::Hovering(_, seq) => seq.wf(),
            MouseState::Tracking(_, seq) => seq.wf(),
            MouseState::Untracked => true,
        }
    }

    pub open spec fn is_hovering_sp(self) -> bool {
        self is Hovering
    }

    /// The position last reported to the node, in its parent's frame;
    /// the origin when it is untracked.
    pub open spec fn pos_sp(self) -> Point2 {
        match self {
            MouseState::Hovering(p, _) => p,
            MouseState::Tracking(p, _) => p,
            MouseState::Untracked => Point2 { x: 0, y: 0 },
        }
    }

    pub fn mouse_button_sequence(&self) -> (r: MouseButtonSequence)
        ensures
            r@ == self.mbseq_sp(),
    {
        match self {
            MouseState::Hovering(_, seq) => seq.snapshot(),
            MouseState::Tracking(_, seq) => seq.snapshot(),
            MouseState::Untracked => MouseButtonSequence::new(),
        }
    }
}

/// Per-node dirty/interest record. Raw dirty bits persist once set; the
/// generation stamp, compared against the root's current generation,
/// decides whether they are visible, so stamping a node clean for one
/// generation leaves the historical bits readable by any other.
#[derive(Debug, Clone, PartialEq, Eq)]
pub struct UpdateTag {
    /// Stable identity token of the owning node.
    pub widget_id: WidgetID,
    /// Generation that last fully processed this node, or
    /// `NO_GENERATION` if it was mutated since.
    pub last_root: u64,
    pub render_self: bool,
    pub update_child: bool,
    pub update_layout: bool,
    pub update_timer: bool,
    pub mouse_state: MouseState,
    pub has_keyboard_focus: bool,
    /// Event classes some node in this subtree cares about.
    pub child_event_recv: ChildEventRecv,
}

impl UpdateTag {
    pub open spec fn wf(self) -> bool {
        self.mouse_state.wf()
    }

    /// The raw dirty bits, ignoring the stamp.
    pub open spec fn raw_bits_sp(self) -> Update {
        Update {
            render_self: self.render_self,
            update_child: self.update_child,
            update_timer: self.update_timer,
            update_layout: self.update_layout,
        }
    }

    /// The work the node needs for generation `root`: nothing when the
    /// stamp records that generation, the raw bits otherwise.
    pub open spec fn needs_update_sp(self, root: RootID) -> Update {
        if self.last_root == root.0 {
            Update::none_sp()
        } else {
            self.raw_bits_sp()
        }
    }

    /// The node needs some work for generation `root`.
    pub open spec fn is_dirty_sp(self, root: RootID) -> bool {
        self.needs_update_sp(root) != Update::none_sp()
    }

    /// The tag as stamped fully processed for `root`: raw bits kept.
    pub open spec fn mark_updated_sp(self, root: RootID) -> UpdateTag {
        UpdateTag { last_root: root.0, ..self }
    }

    /// The event classes the node itself currently cares about: the
    /// buttons pressed in it, hover while hovered, and keyboard while
    /// focused.
    pub open spec fn own_flags_sp(self) -> ChildEventRecv {
        ChildEventRecv::from_mbseq_sp(self.mouse_state.mbseq_sp()).union_sp(
            ChildEventRecv {
                mouse_hover: self.mouse_state.is_hovering_sp(),
                keyboard: self.has_keyboard_focus,
                ..ChildEventRecv::empty_sp()
            },
        )
    }

    /// The full interest summary used to prune routing: the subtree
    /// summary joined with the node's own interests.
    pub open spec fn summary_sp(self) -> ChildEventRecv {
        self.child_event_recv.union_sp(self.own_flags_sp())
    }

    /// The buttons pressed while the pointer was in the node.
    pub open spec fn buttons_in_widget_sp(self) -> Seq<MouseButton> {
        self.mouse_state.mbseq_sp()
    }

    /// The buttons pressed while the pointer was in the node.
    pub fn buttons_in_widget(&self) -> (r: MouseButtonSequence)
        ensures
            r@ == self.buttons_in_widget_sp(),
            self.wf() ==> r.wf(),
    {
        self.mouse_state.mouse_button_sequence()
    }

    /// A fresh tag: all dirty bits set and no generation stamped, so a
    /// brand-new root repaints it by construction.
    pub open spec fn new_sp(widget_id: WidgetID) -> UpdateTag {
        UpdateTag {
            widget_id,
            last_root: NO_GENERATION,
            render_self: true,
            update_child: true,
            update_layout: true,
            update_timer: true,
            mouse_state: MouseState::Untracked,
            has_keyboard_focus: false,
            child_event_recv: ChildEventRecv::empty_sp(),
        }
    }

    /// A fresh tag: all dirty bits set and no generation stamped, so a
    /// brand-new root repaints it by construction.
    pub fn new(widget_id: WidgetID) -> (r: UpdateTag)
        ensures
            r == UpdateTag::new_sp(widget_id),
            r.wf(),
    {
        UpdateTag {
            widget_id,
            last_root: NO_GENERATION,
            render_self: true,
            update_child: true,
            update_layout: true,
            update_timer: true,
            mouse_state: MouseState::Untracked,
            has_keyboard_focus: false,
            child_event_recv: ChildEventRecv::empty(),
        }
    }

    /// Idempotent set of the render-self bit; un-stamps the tag so the
    /// new dirtiness is visible to the current generation.
    pub fn mark_render_self(&mut self)
        ensures
            *final(self) == (UpdateTag {
                render_self: true,
                last_root: NO_GENERATION,
                ..*old(self)
            }),
    {
        self.render_self = true;
        self.last_root = NO_GENERATION;
    }

    /// Idempotent set of the update-child bit; un-stamps the tag.
    pub fn mark_update_child(&mut self)
        ensures
            *final(self) == (UpdateTag {
                update_child: true,
                last_root: NO_GENERATION,
                ..*old(self)
            }),
    {
        self.update_child = true;
        self.last_root = NO_GENERATION;
    }

    /// Idempotent set of the update-layout bit; un-stamps the tag.
    pub fn mark_update_layout(&mut self)
        ensures
            *final(self) == (UpdateTag {
                update_layout: true,
                last_root: NO_GENERATION,
                ..*old(self)
            }),
    {
        self.update_layout = true;
        self.last_root = NO_GENERATION;
    }

    /// Idempotent set of the update-timer bit; un-stamps the tag.
    pub fn mark_update_timer(&mut self)
        ensures
            *final(self) == (UpdateTag {
                update_timer: true,
                last_root: NO_GENERATION,
                ..*old(self)
            }),
    {
        self.update_timer = true;
        self.last_root = NO_GENERATION;
    }

    /// Stamp the tag as fully processed for `root` without touching the
    /// raw bits, so a read against any other generation still sees them.
    pub fn mark_updated(&mut self, root: RootID)
        ensures
            *final(self) == old(self).mark_updated_sp(root),
    {
        self.last_root = root.0;
    }

    /// Clear the raw update-layout bit alone; the stamp is untouched.
    pub fn unmark_update_layout(&mut self)
        ensures
            *final(self) == (UpdateTag { update_layout: false, ..*old(self) }),
    {
        self.update_layout = false;
    }

    /// Clear the raw update-timer bit alone; the stamp is untouched.
    pub fn unmark_update_timer(&mut self)
        ensures
            *final(self) == (UpdateTag { update_timer: false, ..*old(self) }),
    {
        self.update_timer = false;
    }

    pub fn has_keyboard_focus(&self) -> (r: bool)
        ensures
            r == self.has_keyboard_focus,
    {
        self.has_keyboard_focus
    }

    /// The work needed for generation `root`: all-false when the stamp
    /// records that generation, the raw bits otherwise.
    pub fn needs_update(&self, root: RootID) -> (r: Update)
        ensures
            r == self.needs_update_sp(root),
    {
        if self.last_root == root.0 {
            Update::none()
        } else {
            Update {
                render_self: self.render_self,
                update_child: self.update_child,
                update_timer: self.update_timer,
                update_layout: self.update_layout,
            }
        }
    }

    /// The event classes the node itself currently cares about.
    pub fn own_flags(&self) -> (r: ChildEventRecv)
        ensures
            r == self.own_flags_sp(),
    {
        let mbseq = self.mouse_state.mouse_button_sequence();
        let mut extra = ChildEventRecv::empty();
        extra.mouse_hover = match &self.mouse_state {
            MouseState::Hovering(_, _) => true,
            MouseState::Tracking(_, _) => false,
            MouseState::Untracked => false,
        };
        extra.keyboard = self.has_keyboard_focus;
        ChildEventRecv::from_mbseq(&mbseq).union(extra)
    }

    /// The full interest summary used to prune routing.
    pub fn summary(&self) -> (r: ChildEventRecv)
        ensures
            r == self.summary_sp(),
    {
        self.child_event_recv.union(self.own_flags())
    }
}

/// Law: once a tag is stamped fully processed for a generation, reading
/// the needed work against that same generation reports all-false — and
/// keeps doing so however often it is read, since the reading is a pure
/// function of the tag and the generation.
pub proof fn lemma_dirty_stamp_idempotence(tag: UpdateTag, g: RootID)
    ensures
        tag.mark_updated_sp(g).needs_update_sp(g) == Update::none_sp(),
{
}

/// Behavior when another widget attempts to focus a given widget.
#[derive(Debug, Clone, Copy, PartialEq, Eq, Hash, Structural)]
pub enum OnFocus {
    /// Accept focus. Is default.
    Accept,
    /// Don't accept focus; try the next widget instead.
    Skip,
    /// Hand the focus on to a child.
    FocusChild,
}

impl Default for OnFocus {
    fn default() -> (r: OnFocus)
        ensures
            r == OnFocus::Accept,
    {
        OnFocus::Accept
    }
}

/// Where focus goes when a child hands it past the ends of its level.
#[derive(Debug, Clone, Copy, PartialEq, Eq, Hash, Structural)]
pub enum OnFocusOverflow {
    /// Go to the parent and continue on the parent's level. Is default.
    Continue,
    /// Wrap focus around on the current level.
    Wrap,
}

impl Default for OnFocusOverflow {
    fn default() -> (r: OnFocusOverflow)
        ensures
            r == OnFocusOverflow::Continue,
    {
        OnFocusOverflow::Continue
    }
}

} // verus!
