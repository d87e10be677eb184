//! The dirty-aware render walk: what a pass emits, what it skips, and
//! that a freshly stamped tree costs nothing.

use derin_core::arena::{WidgetArena, WidgetKind};
use derin_core::bounds::{BoundBox, DimsRect, Point2};
use derin_core::ident::WidgetIdent;
use derin_core::render::{LayoutSolver, NoopLayout, RenderStep};
use derin_core::root::{Root, WindowEvent};
use derin_core::tags::IdRegistry;

fn small_tree(reg: &mut IdRegistry) -> (WidgetArena, usize) {
    let mut arena = WidgetArena::new(
        BoundBox::new2(0, 0, 100, 100),
        WidgetKind::Parent,
        reg,
    );
    let child = arena.add_child(
        0,
        WidgetIdent::Num(1),
        BoundBox::new2(0, 0, 20, 20),
        WidgetKind::Leaf,
        reg,
    );
    (arena, child)
}

/// Counts how often the external solver is invoked.
struct CountingLayout {
    calls: usize,
}

impl LayoutSolver for CountingLayout {
    fn update_child_layout(&mut self, _arena: &mut WidgetArena, _parent: usize) {
        self.calls += 1;
    }
}

#[test]
fn first_pass_renders_everything() {
    let mut reg = IdRegistry::new();
    let (arena, child) = small_tree(&mut reg);
    let mut root: Root<u32> = Root::new(arena, DimsRect::new(100, 100), &mut reg);
    let mut solver = NoopLayout;
    let steps = root.draw(false, &mut solver);
    assert!(steps.contains(&RenderStep::Render { widget: 0 }));
    assert!(steps.contains(&RenderStep::Render { widget: child }));
    assert!(steps.contains(&RenderStep::Layout { widget: 0 }));
}

#[test]
fn fresh_tree_skips_the_pass_entirely() {
    let mut reg = IdRegistry::new();
    let (arena, _child) = small_tree(&mut reg);
    let mut root: Root<u32> = Root::new(arena, DimsRect::new(100, 100), &mut reg);
    let mut solver = CountingLayout { calls: 0 };
    let first = root.draw(false, &mut solver);
    assert!(first.len() > 0);
    let calls_after_first = solver.calls;
    // all tags freshly stamped, nothing forced: zero render/layout calls
    let second = root.draw(false, &mut solver);
    assert_eq!(second.len(), 0);
    assert_eq!(solver.calls, calls_after_first);
}

#[test]
fn renderer_forced_redraw_overrides_fresh_tags() {
    let mut reg = IdRegistry::new();
    let (arena, _child) = small_tree(&mut reg);
    let mut root: Root<u32> = Root::new(arena, DimsRect::new(100, 100), &mut reg);
    let mut solver = NoopLayout;
    root.draw(false, &mut solver);
    let steps = root.draw(true, &mut solver);
    assert!(steps.contains(&RenderStep::Render { widget: 0 }));
}

#[test]
fn dirty_root_renders_again() {
    let mut reg = IdRegistry::new();
    let (arena, _child) = small_tree(&mut reg);
    let mut root: Root<u32> = Root::new(arena, DimsRect::new(100, 100), &mut reg);
    let mut solver = NoopLayout;
    root.draw(false, &mut solver);
    root.arena.mark_render_self(0);
    let steps = root.draw(false, &mut solver);
    assert!(steps.contains(&RenderStep::Render { widget: 0 }));
}

#[test]
fn resize_forces_full_relayout_and_redraw() {
    let mut reg = IdRegistry::new();
    let (arena, child) = small_tree(&mut reg);
    let mut root: Root<u32> = Root::new(arena, DimsRect::new(100, 100), &mut reg);
    let mut solver = CountingLayout { calls: 0 };
    root.draw(false, &mut solver);
    root.process_window_event(WindowEvent::WindowResize(DimsRect::new(50, 50)));
    let steps = root.draw(false, &mut solver);
    assert!(steps.contains(&RenderStep::Render { widget: 0 }));
    assert!(steps.contains(&RenderStep::Render { widget: child }));
    assert!(solver.calls > 0);
}

#[test]
fn dispatch_dirt_reaches_the_next_pass() {
    let mut reg = IdRegistry::new();
    let (arena, child) = small_tree(&mut reg);
    let mut root: Root<u32> = Root::new(arena, DimsRect::new(100, 100), &mut reg);
    let mut solver = NoopLayout;
    root.draw(false, &mut solver);
    // a handler marks the hovered leaf during dispatch
    root.process_window_event(WindowEvent::MouseEnter(Point2::new(5, 5)));
    root.process_window_event(WindowEvent::MouseMove(Point2::new(6, 5)));
    root.arena.mark_render_self(child);
    root.finish_dispatch();
    let steps = root.draw(false, &mut solver);
    assert!(steps.contains(&RenderStep::Render { widget: child }));
}
