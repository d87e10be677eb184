//! Update-tag behavior: stamping, dirty bits, and the idempotence of
//! reading needed work against a stamped generation.

use derin_core::tags::{IdRegistry, MouseState, Update, UpdateTag};

#[test]
fn fresh_tag_reports_everything() {
    let mut reg = IdRegistry::new();
    let g = reg.fresh_root_id();
    let tag = UpdateTag::new(reg.fresh_widget_id());
    let needs = tag.needs_update(g);
    assert!(needs.render_self);
    assert!(needs.update_child);
    assert!(needs.update_layout);
    assert!(needs.update_timer);
}

#[test]
fn dirty_stamp_idempotence() {
    let mut reg = IdRegistry::new();
    let g = reg.fresh_root_id();
    let mut tag = UpdateTag::new(reg.fresh_widget_id());
    tag.mark_updated(g);
    let first = tag.needs_update(g);
    let second = tag.needs_update(g);
    assert_eq!(first, Update::none());
    assert_eq!(second, Update::none());
}

#[test]
fn new_generation_sees_historical_bits() {
    let mut reg = IdRegistry::new();
    let g1 = reg.fresh_root_id();
    let mut tag = UpdateTag::new(reg.fresh_widget_id());
    tag.mark_updated(g1);
    assert_eq!(tag.needs_update(g1), Update::none());
    // a brand-new root generation forces a full repaint by construction
    let g2 = reg.fresh_root_id();
    let needs = tag.needs_update(g2);
    assert!(needs.render_self && needs.update_child && needs.update_layout && needs.update_timer);
}

#[test]
fn marking_after_stamp_is_visible_to_same_generation() {
    let mut reg = IdRegistry::new();
    let g = reg.fresh_root_id();
    let mut tag = UpdateTag::new(reg.fresh_widget_id());
    tag.mark_updated(g);
    tag.mark_render_self();
    let needs = tag.needs_update(g);
    assert!(needs.render_self);
}

#[test]
fn unmark_clears_single_bits() {
    let mut reg = IdRegistry::new();
    let g = reg.fresh_root_id();
    let mut tag = UpdateTag::new(reg.fresh_widget_id());
    tag.unmark_update_layout();
    tag.unmark_update_timer();
    let needs = tag.needs_update(g);
    assert!(needs.render_self && needs.update_child);
    assert!(!needs.update_layout && !needs.update_timer);
}

#[test]
fn needs_redraw_formula() {
    let none = Update::none();
    assert!(!none.needs_redraw());
    let timer_only = Update { render_self: false, update_child: false, update_timer: true, update_layout: false };
    assert!(!timer_only.needs_redraw());
    let layout = Update { render_self: false, update_child: false, update_timer: false, update_layout: true };
    assert!(layout.needs_redraw());
}

#[test]
fn mouse_state_sequences() {
    let untracked = MouseState::Untracked;
    assert_eq!(untracked.mouse_button_sequence().len(), 0);
}
