//! End-to-end event routing: enter/exit crossing detection, capture
//! reattachment, path round-trips, and dirty propagation on pops.

use derin_core::arena::{WidgetArena, WidgetKind};
use derin_core::bounds::{BoundBox, DimsRect, Point2};
use derin_core::buttons::MouseButton;
use derin_core::ident::WidgetIdent;
use derin_core::root::{Root, WidgetEvent, WindowEvent};
use derin_core::stack::WidgetStack;
use derin_core::tags::IdRegistry;

/// A window-sized parent root with one 20x20 button child.
fn button_tree(reg: &mut IdRegistry) -> (WidgetArena, usize) {
    let mut arena = WidgetArena::new(
        BoundBox::new2(0, 0, 100, 100),
        WidgetKind::Parent,
        reg,
    );
    let button = arena.add_child(
        0,
        WidgetIdent::Num(1),
        BoundBox::new2(0, 0, 20, 20),
        WidgetKind::Leaf,
        reg,
    );
    (arena, button)
}

#[test]
fn enter_then_cross_out_of_button() {
    let mut reg = IdRegistry::new();
    let (arena, button) = button_tree(&mut reg);
    let mut root: Root<u32> = Root::new(arena, DimsRect::new(100, 100), &mut reg);

    let d1 = root.process_window_event(WindowEvent::MouseEnter(Point2::new(5, 5)));
    assert_eq!(d1.len(), 1);
    assert_eq!(d1[0].widget, 0);
    assert!(matches!(
        d1[0].event,
        WidgetEvent::MouseEnter { enter_pos: Point2 { x: 5, y: 5 }, .. }
    ));

    let d2 = root.process_window_event(WindowEvent::MouseMove(Point2::new(25, 5)));
    // the button gets the exact boundary move, then the exit there
    assert_eq!(d2.len(), 3);
    assert_eq!(d2[0].widget, button);
    assert!(matches!(
        d2[0].event,
        WidgetEvent::MouseMove {
            old_pos: Point2 { x: 5, y: 5 },
            new_pos: Point2 { x: 20, y: 5 },
            in_widget: true,
            ..
        }
    ));
    assert_eq!(d2[1].widget, button);
    assert!(matches!(
        d2[1].event,
        WidgetEvent::MouseExit { exit_pos: Point2 { x: 20, y: 5 }, .. }
    ));
    // the root continues the remaining segment to the destination
    assert_eq!(d2[2].widget, 0);
    assert!(matches!(
        d2[2].event,
        WidgetEvent::MouseMove {
            old_pos: Point2 { x: 20, y: 5 },
            new_pos: Point2 { x: 25, y: 5 },
            in_widget: true,
            ..
        }
    ));
}

#[test]
fn button_release_reattaches_to_holder() {
    let mut reg = IdRegistry::new();
    let (arena, button) = button_tree(&mut reg);
    let mut root: Root<u32> = Root::new(arena, DimsRect::new(100, 100), &mut reg);

    root.process_window_event(WindowEvent::MouseEnter(Point2::new(5, 5)));
    let down = root.process_window_event(WindowEvent::MouseDown(MouseButton::Left));
    assert_eq!(down.len(), 1);
    assert_eq!(down[0].widget, button);
    assert!(matches!(
        down[0].event,
        WidgetEvent::MouseDown { pos: Point2 { x: 5, y: 5 }, button: MouseButton::Left }
    ));

    // the pointer leaves the button's subtree entirely
    root.process_window_event(WindowEvent::MouseMove(Point2::new(25, 5)));

    // the release still reaches the button, as an out-of-widget event
    let up = root.process_window_event(WindowEvent::MouseUp(MouseButton::Left));
    assert_eq!(up.len(), 2);
    assert_eq!(up[0].widget, 0);
    assert!(matches!(
        up[0].event,
        WidgetEvent::MouseUp { in_widget: true, button: MouseButton::Left, .. }
    ));
    assert_eq!(up[1].widget, button);
    assert!(matches!(
        up[1].event,
        WidgetEvent::MouseUp { in_widget: false, button: MouseButton::Left, .. }
    ));
}

#[test]
fn orphaned_release_is_a_no_op() {
    let mut reg = IdRegistry::new();
    let (arena, _button) = button_tree(&mut reg);
    let mut root: Root<u32> = Root::new(arena, DimsRect::new(100, 100), &mut reg);
    root.process_window_event(WindowEvent::MouseEnter(Point2::new(50, 50)));
    // nobody holds the right button: only the in-widget release goes out
    let up = root.process_window_event(WindowEvent::MouseUp(MouseButton::Right));
    assert_eq!(up.len(), 1);
    assert_eq!(up[0].widget, 0);
}

#[test]
fn enter_inside_button_delivers_child_entry() {
    let mut reg = IdRegistry::new();
    let (arena, button) = button_tree(&mut reg);
    let mut root: Root<u32> = Root::new(arena, DimsRect::new(100, 100), &mut reg);
    root.process_window_event(WindowEvent::MouseEnter(Point2::new(40, 5)));
    // moving into the button from outside synthesizes the entry chain
    let d = root.process_window_event(WindowEvent::MouseMove(Point2::new(10, 5)));
    assert_eq!(d.len(), 4);
    assert_eq!(d[0].widget, 0);
    assert!(matches!(
        d[0].event,
        WidgetEvent::MouseMove { new_pos: Point2 { x: 20, y: 5 }, .. }
    ));
    assert!(matches!(
        d[1].event,
        WidgetEvent::MouseEnterChild { enter_pos: Point2 { x: 20, y: 5 }, child: WidgetIdent::Num(1), .. }
    ));
    assert_eq!(d[2].widget, button);
    assert!(matches!(
        d[2].event,
        WidgetEvent::MouseEnter { enter_pos: Point2 { x: 20, y: 5 }, .. }
    ));
    assert_eq!(d[3].widget, button);
    assert!(matches!(
        d[3].event,
        WidgetEvent::MouseMove { new_pos: Point2 { x: 10, y: 5 }, in_widget: true, .. }
    ));
}

#[test]
fn nested_crossing_uses_each_level_frame() {
    let mut reg = IdRegistry::new();
    let mut arena = WidgetArena::new(
        BoundBox::new2(0, 0, 100, 100),
        WidgetKind::Parent,
        &mut reg,
    );
    let panel = arena.add_child(
        0,
        WidgetIdent::Num(1),
        BoundBox::new2(10, 10, 90, 90),
        WidgetKind::Parent,
        &mut reg,
    );
    // the inner button's rectangle lives in the panel's interior frame
    let button = arena.add_child(
        panel,
        WidgetIdent::Num(2),
        BoundBox::new2(5, 5, 25, 25),
        WidgetKind::Leaf,
        &mut reg,
    );
    let mut root: Root<u32> = Root::new(arena, DimsRect::new(100, 100), &mut reg);
    root.process_window_event(WindowEvent::MouseEnter(Point2::new(20, 20)));
    let d = root.process_window_event(WindowEvent::MouseMove(Point2::new(60, 20)));

    assert_eq!(d.len(), 3);
    // the button sees panel-interior coordinates and an exact exit
    assert_eq!(d[0].widget, button);
    assert!(matches!(
        d[0].event,
        WidgetEvent::MouseMove {
            old_pos: Point2 { x: 10, y: 10 },
            new_pos: Point2 { x: 25, y: 10 },
            ..
        }
    ));
    assert_eq!(d[1].widget, button);
    assert!(matches!(
        d[1].event,
        WidgetEvent::MouseExit { exit_pos: Point2 { x: 25, y: 10 }, .. }
    ));
    // the panel continues the remaining segment in root coordinates
    assert_eq!(d[2].widget, panel);
    assert!(matches!(
        d[2].event,
        WidgetEvent::MouseMove {
            old_pos: Point2 { x: 35, y: 20 },
            new_pos: Point2 { x: 60, y: 20 },
            ..
        }
    ));
}

#[test]
fn window_resize_invalidates_path_and_forces() {
    let mut reg = IdRegistry::new();
    let (arena, _button) = button_tree(&mut reg);
    let mut root: Root<u32> = Root::new(arena, DimsRect::new(100, 100), &mut reg);
    root.process_window_event(WindowEvent::MouseEnter(Point2::new(5, 5)));
    let d = root.process_window_event(WindowEvent::WindowResize(DimsRect::new(300, 200)));
    assert_eq!(d.len(), 0);
    assert!(root.force_full_redraw);
    assert!(root.force_full_relayout);
    assert_eq!(root.stack.len(), 0);
    assert_eq!(root.arena.rect(0), BoundBox::new2(0, 0, 300, 200));
}

#[test]
fn mouse_exit_drains_whole_path() {
    let mut reg = IdRegistry::new();
    let (arena, button) = button_tree(&mut reg);
    let mut root: Root<u32> = Root::new(arena, DimsRect::new(100, 100), &mut reg);
    root.process_window_event(WindowEvent::MouseEnter(Point2::new(5, 5)));
    root.process_window_event(WindowEvent::MouseMove(Point2::new(6, 5)));
    let d = root.process_window_event(WindowEvent::MouseExit(Point2::new(-3, -3)));
    // deepest first: the button, then the root, and the path is gone
    assert_eq!(d.len(), 2);
    assert_eq!(d[0].widget, button);
    assert!(matches!(d[0].event, WidgetEvent::MouseExit { .. }));
    assert_eq!(d[1].widget, 0);
    assert!(matches!(d[1].event, WidgetEvent::MouseExit { .. }));
    assert_eq!(root.stack.len(), 0);
}

/// A three-level tree for path walking: root -> "a" -> index 2 entry.
fn chain_tree(reg: &mut IdRegistry) -> WidgetArena {
    let mut arena = WidgetArena::new(
        BoundBox::new2(0, 0, 100, 100),
        WidgetKind::Parent,
        reg,
    );
    let a = arena.add_child(
        0,
        WidgetIdent::Str("a"),
        BoundBox::new2(10, 10, 90, 90),
        WidgetKind::Parent,
        reg,
    );
    arena.add_child(
        a,
        WidgetIdent::Num(2),
        BoundBox::new2(0, 0, 30, 30),
        WidgetKind::Leaf,
        reg,
    );
    arena
}

#[test]
fn path_round_trip() {
    let mut reg = IdRegistry::new();
    let mut arena = chain_tree(&mut reg);
    let root_id = reg.fresh_root_id();
    let mut stack = WidgetStack::new(root_id);
    stack.push_root(&arena);

    let path = vec![WidgetIdent::Num(0), WidgetIdent::Str("a"), WidgetIdent::Num(2)];
    assert!(stack.move_to_path(&mut arena, &path));
    // reading the stack's identifiers yields exactly the requested path
    assert_eq!(stack.ident().clone(), path);
}

#[test]
fn path_miss_restores_stack() {
    let mut reg = IdRegistry::new();
    let mut arena = chain_tree(&mut reg);
    let root_id = reg.fresh_root_id();
    let mut stack = WidgetStack::new(root_id);
    stack.push_root(&arena);
    let good = vec![WidgetIdent::Num(0), WidgetIdent::Str("a"), WidgetIdent::Num(2)];
    assert!(stack.move_to_path(&mut arena, &good));

    let bad = vec![WidgetIdent::Num(0), WidgetIdent::Str("missing")];
    assert!(!stack.move_to_path(&mut arena, &bad));
    // the old path is back, untouched
    assert_eq!(stack.ident().clone(), good);

    // a path whose first name diverges is refused outright
    let alien = vec![WidgetIdent::Num(7)];
    assert!(!stack.move_to_path(&mut arena, &alien));
    assert_eq!(stack.ident().clone(), good);
}

#[test]
fn propagation_on_pops_marks_every_ancestor() {
    let mut reg = IdRegistry::new();
    let mut arena = chain_tree(&mut reg);
    let root_id = reg.fresh_root_id();
    let mut stack = WidgetStack::new(root_id);
    stack.push_root(&arena);
    let path = vec![WidgetIdent::Num(0), WidgetIdent::Str("a"), WidgetIdent::Num(2)];
    assert!(stack.move_to_path(&mut arena, &path));
    let leaf = stack.top();

    // stamp everything clean first, then dirty the leaf alone
    arena.mark_updated(0, root_id);
    arena.mark_updated(1, root_id);
    arena.mark_updated(leaf, root_id);
    arena.mark_render_self(leaf);

    // unwinding to the root must set update-child on every ancestor
    stack.truncate(&mut arena, 1);
    assert!(arena.tag(1).needs_update(root_id).update_child);
    assert!(arena.tag(0).needs_update(root_id).update_child);
}

#[test]
fn child_enumeration_and_root_pop_floor() {
    let mut reg = IdRegistry::new();
    let mut arena = chain_tree(&mut reg);
    let kids = arena.children(0);
    assert_eq!(kids.len(), 1);
    assert_eq!(kids[0].ident, WidgetIdent::Str("a"));
    assert_eq!(kids[0].index, 0);
    assert_eq!(kids[0].rect, BoundBox::new2(10, 10, 90, 90));
    assert_eq!(arena.children(kids[0].widget).len(), 1);

    let root_id = reg.fresh_root_id();
    let mut stack = WidgetStack::new(root_id);
    stack.push_root(&arena);
    // a depth-0 stack never shrinks further
    assert_eq!(stack.pop(&mut arena), None);
    assert_eq!(stack.len(), 1);
}

#[test]
fn sibling_moves() {
    let mut reg = IdRegistry::new();
    let mut arena = WidgetArena::new(
        BoundBox::new2(0, 0, 100, 100),
        WidgetKind::Parent,
        &mut reg,
    );
    let first = arena.add_child(
        0,
        WidgetIdent::Num(1),
        BoundBox::new2(0, 0, 10, 10),
        WidgetKind::Leaf,
        &mut reg,
    );
    let second = arena.add_child(
        0,
        WidgetIdent::Num(2),
        BoundBox::new2(10, 0, 20, 10),
        WidgetKind::Leaf,
        &mut reg,
    );
    let root_id = reg.fresh_root_id();
    let mut stack = WidgetStack::new(root_id);
    stack.push_root(&arena);
    assert!(stack.try_push_ident(&arena, &WidgetIdent::Num(1)).is_some());
    assert_eq!(stack.top(), first);

    assert_eq!(stack.move_to_sibling_delta(&mut arena, 1), Ok(second));
    assert_eq!(stack.top(), second);
    assert_eq!(stack.move_to_sibling_index(&mut arena, 0), Ok(first));
    assert!(stack.move_to_sibling_delta(&mut arena, -1).is_err());
    assert_eq!(stack.top(), first);
    assert!(stack.move_to_sibling_index(&mut arena, 5).is_err());
}
