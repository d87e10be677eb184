//! Button sequences, event-class sets, widget identifiers, and the
//! loop-flow vocabulary.

use derin_core::arena::{WidgetArena, WidgetKind};
use derin_core::bounds::{BoundBox, DimsRect};
use derin_core::buttons::{MouseButton, MouseButtonSequence};
use derin_core::cer::ChildEventRecv;
use derin_core::ident::WidgetIdent;
use derin_core::root::Root;
use derin_core::tags::{IdRegistry, OnFocus, OnFocusOverflow};
use derin_core::LoopFlow;

#[test]
fn button_sequence_press_and_release() {
    let mut seq = MouseButtonSequence::new();
    assert_eq!(seq.len(), 0);
    seq.push_button(MouseButton::Left);
    seq.push_button(MouseButton::Right);
    seq.push_button(MouseButton::Left);
    // a held button is recorded once, in press order
    assert_eq!(seq.len(), 2);
    assert!(seq.contains(MouseButton::Left));
    assert!(seq.contains(MouseButton::Right));
    assert_eq!(seq.get(0), MouseButton::Left);
    assert_eq!(seq.get(1), MouseButton::Right);

    seq.release_button(MouseButton::Left);
    assert!(!seq.contains(MouseButton::Left));
    assert!(seq.contains(MouseButton::Right));
    seq.release_button(MouseButton::Middle);
    assert_eq!(seq.len(), 1);
}

#[test]
fn event_class_set_operations() {
    let l = ChildEventRecv::mouse_button_mask(MouseButton::Left);
    let r = ChildEventRecv::mouse_button_mask(MouseButton::Right);
    let both = l.union(r);
    assert!(both.intersects(l));
    assert!(both.intersects(r));
    assert!(both.superset(l));
    assert!(!l.superset(both));
    assert!(!l.intersects(r));
    let only_r = both.subtract(l);
    assert!(!only_r.intersects(l));
    assert!(only_r.intersects(r));
    assert!(ChildEventRecv::empty().is_empty());
    assert!(!both.is_empty());
    let cleared = both.subtract(both);
    assert!(cleared.is_empty());
}

#[test]
fn mask_from_sequence() {
    let mut seq = MouseButtonSequence::new();
    seq.push_button(MouseButton::Middle);
    seq.push_button(MouseButton::X1);
    let mask = ChildEventRecv::from_mbseq(&seq);
    assert!(mask.intersects(ChildEventRecv::mouse_button_mask(MouseButton::Middle)));
    assert!(mask.intersects(ChildEventRecv::mouse_button_mask(MouseButton::X1)));
    assert!(!mask.intersects(ChildEventRecv::mouse_button_mask(MouseButton::Left)));
    assert!(!mask.mouse_hover);
    assert!(!mask.keyboard);
}

#[test]
fn identifier_equality() {
    assert!(WidgetIdent::Str("button").eq_ident(&WidgetIdent::Str("button")));
    assert!(!WidgetIdent::Str("button").eq_ident(&WidgetIdent::Str("label")));
    assert!(!WidgetIdent::Str("a").eq_ident(&WidgetIdent::Num(0)));
    assert!(WidgetIdent::NumCollection(3, 7).eq_ident(&WidgetIdent::NumCollection(3, 7)));
    assert!(!WidgetIdent::NumCollection(3, 7).eq_ident(&WidgetIdent::NumCollection(3, 8)));
    assert!(WidgetIdent::StrCollection("row", 2).eq_ident(&WidgetIdent::StrCollection("row", 2)));
    assert!(!WidgetIdent::StrCollection("row", 2).eq_ident(&WidgetIdent::StrCollection("col", 2)));
}

#[test]
fn loop_flow_and_focus_defaults() {
    let cont: LoopFlow<u32> = LoopFlow::Continue;
    assert_eq!(cont.into_option(), None);
    let brk: LoopFlow<u32> = LoopFlow::Break(7);
    assert_eq!(brk.into_option(), Some(7));
    assert_eq!(OnFocus::default(), OnFocus::Accept);
    assert_eq!(OnFocusOverflow::default(), OnFocusOverflow::Continue);
}

#[test]
fn action_queue_is_fifo() {
    let mut reg = IdRegistry::new();
    let arena = WidgetArena::new(BoundBox::new2(0, 0, 10, 10), WidgetKind::Leaf, &mut reg);
    let mut root: Root<u32> = Root::new(arena, DimsRect::new(10, 10), &mut reg);
    root.push_action(1);
    root.push_action(2);
    root.push_action(3);
    assert_eq!(root.pop_action(), Some(1));
    assert_eq!(root.pop_action(), Some(2));
    assert_eq!(root.pop_action(), Some(3));
    assert_eq!(root.pop_action(), None);
}
