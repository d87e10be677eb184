//! The dirty-aware render walk: descend only into subtrees whose update
//! tags report work for the current generation, emit layout and render
//! steps for the external renderer, and stamp every processed node.

use vstd::prelude::*;
use crate::arena::WidgetArena;
use crate::arena::WidgetKind;
use crate::tags::RootID;
use crate::tags::Update;
use crate::tags::UpdateTag;

verus! {

/// One step of a render pass, in traversal order, for the external
/// renderer to execute: recompute a parent's child layout, or draw a
/// node into a frame scoped to its rectangle.
#[derive(Debug, Clone, Copy, PartialEq, Eq, Hash, Structural)]
pub enum RenderStep {
    Layout { widget: usize },
    Render { widget: usize },
}

/// A node's pending work for `root`, joined with the forced flags, as
/// the walk reads it.
pub open spec fn joined_needs_sp(tag: UpdateTag, root: RootID, fr: bool, frl: bool) -> Update {
    let n = tag.needs_update_sp(root);
    Update {
        render_self: n.render_self || fr,
        update_child: n.update_child || fr,
        update_timer: n.update_timer,
        update_layout: n.update_layout || frl,
    }
}

/// The steps the walk emits for the first `k` children of `parent`, in
/// traversal order: for each child needing work, its layout step, then
/// its render step, then the steps of the walk over its own children.
pub open spec fn walk_steps_sp(
    arena: WidgetArena,
    parent: int,
    k: int,
    root: RootID,
    fr: bool,
    frl: bool,
) -> Seq<RenderStep>
    decreases arena.nodes@.len() - parent, k,
{
    if k <= 0 || !(0 <= parent < arena.nodes@.len())
        || k > arena.nodes@[parent].children@.len() {
        Seq::empty()
    } else {
        let prev = walk_steps_sp(arena, parent, k - 1, root, fr, frl);
        let child = arena.nodes@[parent].children@[k - 1].widget as int;
        if !(parent < child < arena.nodes@.len()) {
            prev
        } else {
            let needs = joined_needs_sp(arena.nodes@[child].update_tag, root, fr, frl);
            prev + (match arena.nodes@[child].kind {
                WidgetKind::Leaf => if needs.render_self {
                    seq![RenderStep::Render { widget: child as usize }]
                } else {
                    Seq::empty()
                },
                WidgetKind::Parent => (if needs.update_layout {
                    seq![RenderStep::Layout { widget: child as usize }]
                } else {
                    Seq::empty()
                }) + (if needs.render_self {
                    seq![RenderStep::Render { widget: child as usize }]
                } else {
                    Seq::empty()
                }) + (if needs.update_child {
                    walk_steps_sp(
                        arena,
                        child,
                        arena.nodes@[child].children@.len() as int,
                        root,
                        fr,
                        frl,
                    )
                } else {
                    Seq::empty()
                }),
            })
        }
    }
}

/// Whether the walk over the first `k` children of `parent` stamps node
/// `n`: every enumerated child is stamped, and the walk descends into a
/// parent child exactly when it needs child updates.
pub open spec fn walk_visits_sp(
    arena: WidgetArena,
    parent: int,
    k: int,
    n: int,
    root: RootID,
    fr: bool,
) -> bool
    decreases arena.nodes@.len() - parent, k,
{
    if k <= 0 || !(0 <= parent < arena.nodes@.len())
        || k > arena.nodes@[parent].children@.len() {
        false
    } else {
        let prev = walk_visits_sp(arena, parent, k - 1, n, root, fr);
        let child = arena.nodes@[parent].children@[k - 1].widget as int;
        if !(parent < child < arena.nodes@.len()) {
            prev
        } else {
            prev || n == child || (arena.nodes@[child].kind is Parent
                && (arena.nodes@[child].update_tag.needs_update_sp(root).update_child || fr)
                && walk_visits_sp(
                arena,
                child,
                arena.nodes@[child].children@.len() as int,
                n,
                root,
                fr,
            ))
        }
    }
}

/// Whether the walk over the first `k` children of `parent` hands node
/// `p` to the layout solver.
pub open spec fn walk_layouts_sp(
    arena: WidgetArena,
    parent: int,
    k: int,
    p: int,
    root: RootID,
    fr: bool,
    frl: bool,
) -> bool
    decreases arena.nodes@.len() - parent, k,
{
    if k <= 0 || !(0 <= parent < arena.nodes@.len())
        || k > arena.nodes@[parent].children@.len() {
        false
    } else {
        let prev = walk_layouts_sp(arena, parent, k - 1, p, root, fr, frl);
        let child = arena.nodes@[parent].children@[k - 1].widget as int;
        if !(parent < child < arena.nodes@.len()) {
            prev
        } else {
            let needs = joined_needs_sp(arena.nodes@[child].update_tag, root, fr, frl);
            prev || (p == child && arena.nodes@[child].kind is Parent && needs.update_layout) || (
            arena.nodes@[child].kind is Parent && needs.update_child && walk_layouts_sp(
                arena,
                child,
                arena.nodes@[child].children@.len() as int,
                p,
                root,
                fr,
                frl,
            ))
        }
    }
}

/// Whether the walk over the first `k` children of `parent` may move
/// node `n`'s rectangle: some node the solver is handed has `n` as an
/// immediate child.
pub open spec fn walk_may_move_sp(
    arena: WidgetArena,
    parent: int,
    k: int,
    n: int,
    root: RootID,
    fr: bool,
    frl: bool,
) -> bool {
    exists|p: int|
        0 <= p < arena.nodes@.len() && #[trigger] walk_layouts_sp(arena, parent, k, p, root, fr, frl)
            && arena.is_child_sp(p, n)
}

/// Everything the walk stamps or lays out lies in the subtree of one of
/// the first `k` children.
pub proof fn lemma_walk_in_subtree(
    arena: WidgetArena,
    parent: int,
    k: int,
    n: int,
    root: RootID,
    fr: bool,
    frl: bool,
)
    requires
        arena.wf(),
        0 <= parent < arena.nodes@.len(),
        0 <= k <= arena.nodes@[parent].children@.len(),
    ensures
        walk_visits_sp(arena, parent, k, n, root, fr) ==> exists|j: int|
            0 <= j < k && arena.in_subtree(
                (#[trigger] arena.nodes@[parent].children@[j]).widget as int,
                n,
            ),
        walk_layouts_sp(arena, parent, k, n, root, fr, frl) ==> exists|j: int|
            0 <= j < k && arena.in_subtree(
                (#[trigger] arena.nodes@[parent].children@[j]).widget as int,
                n,
            ),
    decreases arena.nodes@.len() - parent, k,
{
    if k > 0 {
        lemma_walk_in_subtree(arena, parent, k - 1, n, root, fr, frl);
        assert(arena.wf_node(parent));
        let child = arena.nodes@[parent].children@[k - 1].widget as int;
        if n == child {
            arena.lemma_subtree_refl(child);
        }
        if arena.nodes@[child].kind is Parent {
            lemma_walk_in_subtree(
                arena,
                child,
                arena.nodes@[child].children@.len() as int,
                n,
                root,
                fr,
                frl,
            );
            if walk_visits_sp(
                arena,
                child,
                arena.nodes@[child].children@.len() as int,
                n,
                root,
                fr,
            ) || walk_layouts_sp(
                arena,
                child,
                arena.nodes@[child].children@.len() as int,
                n,
                root,
                fr,
                frl,
            ) {
                let j = choose|j: int|
                    0 <= j < arena.nodes@[child].children@.len() && arena.in_subtree(
                        (#[trigger] arena.nodes@[child].children@[j]).widget as int,
                        n,
                    );
                arena.lemma_subtree_step(child, j, n);
            }
        }
    }
}

/// The walk reads only kinds, child lists and the tags inside the
/// subtree it covers, so arenas agreeing there agree on its steps,
/// stamps and layout calls.
#[verifier::rlimit(100)]
pub proof fn lemma_walk_same_tags(
    a1: WidgetArena,
    a2: WidgetArena,
    r: int,
    k: int,
    n: int,
    root: RootID,
    fr: bool,
    frl: bool,
)
    requires
        a1.wf(),
        a1.nodes@.len() == a2.nodes@.len(),
        forall|m: int|
            0 <= m < a1.nodes@.len() ==> {
                &&& (#[trigger] a2.nodes@[m]).children@ == a1.nodes@[m].children@
                &&& a2.nodes@[m].kind == a1.nodes@[m].kind
            },
        forall|m: int|
            0 <= m < a1.nodes@.len() && a1.in_subtree(r, m) ==> (#[trigger] a2.nodes@[m]).update_tag
                == a1.nodes@[m].update_tag,
        0 <= r < a1.nodes@.len(),
        0 <= k <= a1.nodes@[r].children@.len(),
    ensures
        walk_steps_sp(a1, r, k, root, fr, frl) == walk_steps_sp(a2, r, k, root, fr, frl),
        walk_visits_sp(a1, r, k, n, root, fr) == walk_visits_sp(a2, r, k, n, root, fr),
        walk_layouts_sp(a1, r, k, n, root, fr, frl) == walk_layouts_sp(a2, r, k, n, root, fr, frl),
    decreases a1.nodes@.len() - r, k,
{
    if k > 0 {
        lemma_walk_same_tags(a1, a2, r, k - 1, n, root, fr, frl);
        assert(a1.wf_node(r));
        let c = k - 1;
        let child = a1.nodes@[r].children@[c].widget as int;
        a1.lemma_subtree_refl(child);
        a1.lemma_subtree_step(r, c, child);
        assert(a2.nodes@[r].children@ == a1.nodes@[r].children@);
        assert(a2.nodes@[child].kind == a1.nodes@[child].kind);
        assert(a2.nodes@[child].children@ == a1.nodes@[child].children@);
        assert(a2.nodes@[child].update_tag == a1.nodes@[child].update_tag);
        if a1.nodes@[child].kind is Parent {
            assert forall|m: int|
                0 <= m < a1.nodes@.len() && a1.in_subtree(child, m) implies (
            #[trigger] a2.nodes@[m]).update_tag == a1.nodes@[m].update_tag by {
                a1.lemma_subtree_step(r, c, m);
            }
            lemma_walk_same_tags(
                a1,
                a2,
                child,
                a1.nodes@[child].children@.len() as int,
                n,
                root,
                fr,
                frl,
            );
        }
    }
}


/// One iteration of the walk restores the stamp invariant: the covered
/// set grows by the enumerated child and, when descended into, its walk.
#[verifier::rlimit(100)]
proof fn lemma_restore_tags(
    entry: WidgetArena,
    mid0: WidgetArena,
    mid1: WidgetArena,
    pre_mark: WidgetArena,
    cur: WidgetArena,
    parent: int,
    k: int,
    root: RootID,
    fr: bool,
    frl: bool,
)
    requires
        entry.wf(),
        0 <= parent < entry.nodes@.len(),
        0 <= k < entry.nodes@[parent].children@.len(),
        mid0.nodes@.len() == entry.nodes@.len(),
        mid1.nodes@.len() == entry.nodes@.len(),
        pre_mark.nodes@.len() == entry.nodes@.len(),
        cur.nodes@.len() == entry.nodes@.len(),
        forall|m: int|
            0 <= m < entry.nodes@.len() ==> {
                &&& (#[trigger] mid1.nodes@[m]).children@ == entry.nodes@[m].children@
                &&& mid1.nodes@[m].kind == entry.nodes@[m].kind
            },
        forall|n: int|
            0 <= n < entry.nodes@.len() ==> (#[trigger] mid0.nodes@[n]).update_tag == (
            if walk_visits_sp(entry, parent, k, n, root, fr) {
                entry.nodes@[n].update_tag.mark_updated_sp(root)
            } else {
                entry.nodes@[n].update_tag
            }),
        forall|n: int|
            0 <= n < entry.nodes@.len() ==> (#[trigger] mid1.nodes@[n]).update_tag
                == mid0.nodes@[n].update_tag,
        ({
            let kid = entry.nodes@[parent].children@[k].widget as int;
            let uc = entry.nodes@[kid].kind is Parent && (
            entry.nodes@[kid].update_tag.needs_update_sp(root).update_child || fr);
            if uc {
                forall|n: int|
                    0 <= n < entry.nodes@.len() ==> (#[trigger] pre_mark.nodes@[n]).update_tag == (
                    if walk_visits_sp(
                        mid1,
                        kid,
                        mid1.nodes@[kid].children@.len() as int,
                        n,
                        root,
                        fr,
                    ) {
                        mid1.nodes@[n].update_tag.mark_updated_sp(root)
                    } else {
                        mid1.nodes@[n].update_tag
                    })
            } else {
                forall|n: int|
                    0 <= n < entry.nodes@.len() ==> (#[trigger] pre_mark.nodes@[n]).update_tag
                        == mid1.nodes@[n].update_tag
            }
        }),
        ({
            let kid = entry.nodes@[parent].children@[k].widget as int;
            &&& cur.nodes@[kid].update_tag == pre_mark.nodes@[kid].update_tag.mark_updated_sp(root)
            &&& forall|n: int|
                0 <= n < entry.nodes@.len() && n != kid ==> (#[trigger] cur.nodes@[n]).update_tag
                    == pre_mark.nodes@[n].update_tag
        }),
    ensures
        forall|n: int|
            0 <= n < entry.nodes@.len() ==> (#[trigger] cur.nodes@[n]).update_tag == (
            if walk_visits_sp(entry, parent, k + 1, n, root, fr) {
                entry.nodes@[n].update_tag.mark_updated_sp(root)
            } else {
                entry.nodes@[n].update_tag
            }),
{
    assert(entry.wf_node(parent));
    let kid = entry.nodes@[parent].children@[k].widget as int;
    let numch = entry.nodes@[kid].children@.len() as int;
    let uc = entry.nodes@[kid].kind is Parent && (
    entry.nodes@[kid].update_tag.needs_update_sp(root).update_child || fr);
    // tags inside the child's subtree are still the entry tags
    assert forall|m: int|
        0 <= m < entry.nodes@.len() && entry.in_subtree(kid, m) implies (
    #[trigger] mid1.nodes@[m]).update_tag == entry.nodes@[m].update_tag by {
        if walk_visits_sp(entry, parent, k, m, root, fr) {
            lemma_walk_in_subtree(entry, parent, k, m, root, fr, frl);
            let j = choose|j: int|
                0 <= j < k && entry.in_subtree(
                    (#[trigger] entry.nodes@[parent].children@[j]).widget as int,
                    m,
                );
            entry.lemma_subtree_disjoint(parent, j, k, m);
            assert(false);
        }
    }
    // the child's own walk never stamps the child itself
    if walk_visits_sp(entry, kid, numch, kid, root, fr) {
        lemma_walk_in_subtree(entry, kid, numch, kid, root, fr, frl);
        let j = choose|j: int|
            0 <= j < numch && entry.in_subtree(
                (#[trigger] entry.nodes@[kid].children@[j]).widget as int,
                kid,
            );
        assert(entry.wf_node(kid));
        entry.lemma_subtree_ge(entry.nodes@[kid].children@[j].widget as int, kid);
        assert(false);
    }
    if walk_visits_sp(entry, parent, k, kid, root, fr) {
        lemma_walk_in_subtree(entry, parent, k, kid, root, fr, frl);
        let j = choose|j: int|
            0 <= j < k && entry.in_subtree(
                (#[trigger] entry.nodes@[parent].children@[j]).widget as int,
                kid,
            );
        entry.lemma_subtree_refl(kid);
        entry.lemma_subtree_disjoint(parent, j, k, kid);
        assert(false);
    }
    assert forall|n: int|
        0 <= n < entry.nodes@.len() implies (#[trigger] cur.nodes@[n]).update_tag == (
    if walk_visits_sp(entry, parent, k + 1, n, root, fr) {
        entry.nodes@[n].update_tag.mark_updated_sp(root)
    } else {
        entry.nodes@[n].update_tag
    }) by {
        if uc {
            lemma_walk_same_tags(entry, mid1, kid, numch, n, root, fr, frl);
        }
        if n == kid {
        } else {
            if uc && walk_visits_sp(entry, kid, numch, n, root, fr) {
                lemma_walk_in_subtree(entry, kid, numch, n, root, fr, frl);
                let j = choose|j: int|
                    0 <= j < numch && entry.in_subtree(
                        (#[trigger] entry.nodes@[kid].children@[j]).widget as int,
                        n,
                    );
                entry.lemma_subtree_step(kid, j, n);
                if walk_visits_sp(entry, parent, k, n, root, fr) {
                    lemma_walk_in_subtree(entry, parent, k, n, root, fr, frl);
                    let j2 = choose|j2: int|
                        0 <= j2 < k && entry.in_subtree(
                            (#[trigger] entry.nodes@[parent].children@[j2]).widget as int,
                            n,
                        );
                    entry.lemma_subtree_disjoint(parent, j2, k, n);
                    assert(false);
                }
            }
        }
    }
}

/// One iteration of the walk restores the rectangle frame: everything
/// that moved sits under a node the walk handed to the solver.
#[verifier::rlimit(100)]
proof fn lemma_restore_rects(
    entry: WidgetArena,
    mid0: WidgetArena,
    mid1: WidgetArena,
    cur: WidgetArena,
    parent: int,
    k: int,
    root: RootID,
    fr: bool,
    frl: bool,
)
    requires
        entry.wf(),
        0 <= parent < entry.nodes@.len(),
        0 <= k < entry.nodes@[parent].children@.len(),
        mid0.nodes@.len() == entry.nodes@.len(),
        mid1.nodes@.len() == entry.nodes@.len(),
        cur.nodes@.len() == entry.nodes@.len(),
        forall|m: int|
            0 <= m < entry.nodes@.len() ==> {
                &&& (#[trigger] mid1.nodes@[m]).children@ == entry.nodes@[m].children@
                &&& mid1.nodes@[m].kind == entry.nodes@[m].kind
            },
        forall|n: int|
            0 <= n < entry.nodes@.len() ==> (#[trigger] mid0.nodes@[n]).update_tag == (
            if walk_visits_sp(entry, parent, k, n, root, fr) {
                entry.nodes@[n].update_tag.mark_updated_sp(root)
            } else {
                entry.nodes@[n].update_tag
            }),
        forall|n: int|
            0 <= n < entry.nodes@.len() ==> (#[trigger] mid1.nodes@[n]).update_tag
                == mid0.nodes@[n].update_tag,
        forall|n: int|
            0 <= n < entry.nodes@.len() && !walk_may_move_sp(entry, parent, k, n, root, fr, frl)
                ==> (#[trigger] mid0.nodes@[n]).rect == entry.nodes@[n].rect,
        ({
            let kid = entry.nodes@[parent].children@[k].widget as int;
            let needs = joined_needs_sp(entry.nodes@[kid].update_tag, root, fr, frl);
            if entry.nodes@[kid].kind is Parent && needs.update_layout {
                forall|n: int|
                    0 <= n < entry.nodes@.len() && !entry.is_child_sp(kid, n) ==> (
                    #[trigger] mid1.nodes@[n]).rect == mid0.nodes@[n].rect
            } else {
                forall|n: int|
                    0 <= n < entry.nodes@.len() ==> (#[trigger] mid1.nodes@[n]).rect
                        == mid0.nodes@[n].rect
            }
        }),
        ({
            let kid = entry.nodes@[parent].children@[k].widget as int;
            let needs = joined_needs_sp(entry.nodes@[kid].update_tag, root, fr, frl);
            if entry.nodes@[kid].kind is Parent && needs.update_child {
                forall|n: int|
                    0 <= n < entry.nodes@.len() && !walk_may_move_sp(
                        mid1,
                        kid,
                        mid1.nodes@[kid].children@.len() as int,
                        n,
                        root,
                        fr,
                        frl,
                    ) ==> (#[trigger] cur.nodes@[n]).rect == mid1.nodes@[n].rect
            } else {
                forall|n: int|
                    0 <= n < entry.nodes@.len() ==> (#[trigger] cur.nodes@[n]).rect
                        == mid1.nodes@[n].rect
            }
        }),
    ensures
        forall|n: int|
            0 <= n < entry.nodes@.len() && !walk_may_move_sp(
                entry,
                parent,
                k + 1,
                n,
                root,
                fr,
                frl,
            ) ==> (#[trigger] cur.nodes@[n]).rect == entry.nodes@[n].rect,
{
    assert(entry.wf_node(parent));
    let kid = entry.nodes@[parent].children@[k].widget as int;
    let numch = entry.nodes@[kid].children@.len() as int;
    let needs = joined_needs_sp(entry.nodes@[kid].update_tag, root, fr, frl);
    // the walk visits nothing at or above the child so far, so the
    // child's tag read by the layout test is the entry tag
    assert forall|m: int|
        0 <= m < entry.nodes@.len() && entry.in_subtree(kid, m) implies (
    #[trigger] mid1.nodes@[m]).update_tag == entry.nodes@[m].update_tag by {
        if walk_visits_sp(entry, parent, k, m, root, fr) {
            lemma_walk_in_subtree(entry, parent, k, m, root, fr, frl);
            let j = choose|j: int|
                0 <= j < k && entry.in_subtree(
                    (#[trigger] entry.nodes@[parent].children@[j]).widget as int,
                    m,
                );
            entry.lemma_subtree_disjoint(parent, j, k, m);
            assert(false);
        }
    }
    assert forall|n: int|
        0 <= n < entry.nodes@.len() && !walk_may_move_sp(
            entry,
            parent,
            k + 1,
            n,
            root,
            fr,
            frl,
        ) implies (#[trigger] cur.nodes@[n]).rect == entry.nodes@[n].rect by {
        if walk_may_move_sp(entry, parent, k, n, root, fr, frl) {
            let p0 = choose|p0: int|
                0 <= p0 < entry.nodes@.len() && #[trigger] walk_layouts_sp(
                    entry,
                    parent,
                    k,
                    p0,
                    root,
                    fr,
                    frl,
                ) && entry.is_child_sp(p0, n);
            assert(walk_layouts_sp(entry, parent, k + 1, p0, root, fr, frl));
            assert(walk_may_move_sp(entry, parent, k + 1, n, root, fr, frl));
            assert(false);
        }
        assert(mid0.nodes@[n].rect == entry.nodes@[n].rect);
        if entry.nodes@[kid].kind is Parent {
            if needs.update_layout && entry.is_child_sp(kid, n) {
                assert(walk_layouts_sp(entry, parent, k + 1, kid, root, fr, frl));
                assert(walk_may_move_sp(entry, parent, k + 1, n, root, fr, frl));
                assert(false);
            }
            if needs.update_child {
                if walk_may_move_sp(mid1, kid, numch, n, root, fr, frl) {
                    let p = choose|p: int|
                        0 <= p < mid1.nodes@.len() && #[trigger] walk_layouts_sp(
                            mid1,
                            kid,
                            numch,
                            p,
                            root,
                            fr,
                            frl,
                        ) && mid1.is_child_sp(p, n);
                    lemma_walk_same_tags(entry, mid1, kid, numch, p, root, fr, frl);
                    assert(entry.nodes@[p].children@ == mid1.nodes@[p].children@);
                    assert(entry.is_child_sp(p, n));
                    assert(walk_layouts_sp(entry, parent, k + 1, p, root, fr, frl));
                    assert(walk_may_move_sp(entry, parent, k + 1, n, root, fr, frl));
                    assert(false);
                }
            }
        }
    }
}

/// The external layout solver, called mid-walk to recompute child
/// rectangles before their owners render. An implementation may move
/// and resize the children of `parent` and must leave everything else
/// of the tree alone.
pub trait LayoutSolver {
    fn update_child_layout(&mut self, arena: &mut WidgetArena, parent: usize)
        requires
            old(arena).wf(),
            old(arena).valid_handle(parent as int),
        ensures
            final(arena).wf(),
            final(arena).nodes@.len() == old(arena).nodes@.len(),
            forall|n: int|
                0 <= n < old(arena).nodes@.len() ==> {
                    &&& (#[trigger] final(arena).nodes@[n]).update_tag == old(
                        arena,
                    ).nodes@[n].update_tag
                    &&& final(arena).nodes@[n].kind == old(arena).nodes@[n].kind
                    &&& final(arena).nodes@[n].children@ == old(arena).nodes@[n].children@
                },
            forall|n: int|
                0 <= n < old(arena).nodes@.len() && !old(arena).is_child_sp(parent as int, n)
                    ==> (#[trigger] final(arena).nodes@[n]).rect == old(arena).nodes@[n].rect,
    ;
}

/// A solver that keeps every rectangle where it is.
pub struct NoopLayout;

impl LayoutSolver for NoopLayout {
    fn update_child_layout(&mut self, arena: &mut WidgetArena, parent: usize) {
    }
}

/// Walk the children of `parent`, handling each child's layout, render
/// and descent as its tag demands, and stamping each child afterwards:
/// exactly the walk's steps are appended, exactly the nodes it covers
/// are stamped, and only rectangles under a node handed to the solver
/// may move.
#[verifier::rlimit(100)]
pub fn render_children<L: LayoutSolver>(
    arena: &mut WidgetArena,
    parent: usize,
    root_id: RootID,
    force_redraw: bool,
    force_relayout: bool,
    solver: &mut L,
    steps: &mut Vec<RenderStep>,
)
    requires
        old(arena).wf(),
        old(arena).valid_handle(parent as int),
    ensures
        final(arena).wf(),
        final(arena).nodes@.len() == old(arena).nodes@.len(),
        forall|n: int|
            0 <= n < old(arena).nodes@.len() ==> {
                &&& (#[trigger] final(arena).nodes@[n]).children@ == old(arena).nodes@[n].children@
                &&& final(arena).nodes@[n].kind == old(arena).nodes@[n].kind
            },
        // exactly the walk's steps are appended, in traversal order
        final(steps)@ == old(steps)@ + walk_steps_sp(
            *old(arena),
            parent as int,
            old(arena).nodes@[parent as int].children@.len() as int,
            root_id,
            force_redraw,
            force_relayout,
        ),
        // exactly the nodes the walk covers are stamped for `root_id`;
        // every other tag is untouched
        forall|n: int|
            0 <= n < old(arena).nodes@.len() ==> (#[trigger] final(arena).nodes@[n]).update_tag
                == (if walk_visits_sp(
                *old(arena),
                parent as int,
                old(arena).nodes@[parent as int].children@.len() as int,
                n,
                root_id,
                force_redraw,
            ) {
                old(arena).nodes@[n].update_tag.mark_updated_sp(root_id)
            } else {
                old(arena).nodes@[n].update_tag
            }),
        // a rectangle moves only under a node handed to the solver
        forall|n: int|
            0 <= n < old(arena).nodes@.len() && !walk_may_move_sp(
                *old(arena),
                parent as int,
                old(arena).nodes@[parent as int].children@.len() as int,
                n,
                root_id,
                force_redraw,
                force_relayout,
            ) ==> (#[trigger] final(arena).nodes@[n]).rect == old(arena).nodes@[n].rect,
    decreases old(arena).nodes@.len() - parent,
{
    let num = arena.num_children(parent);
    let mut k: usize = 0;
    while k < num
        invariant
            old(arena).wf(),
            old(arena).valid_handle(parent as int),
            arena.wf(),
            arena.valid_handle(parent as int),
            arena.nodes@.len() == old(arena).nodes@.len(),
            num == arena.nodes@[parent as int].children@.len(),
            num == old(arena).nodes@[parent as int].children@.len(),
            0 <= k <= num,
            forall|n: int|
                0 <= n < old(arena).nodes@.len() ==> {
                    &&& (#[trigger] arena.nodes@[n]).children@ == old(arena).nodes@[n].children@
                    &&& arena.nodes@[n].kind == old(arena).nodes@[n].kind
                },
            steps@ == old(steps)@ + walk_steps_sp(
                *old(arena),
                parent as int,
                k as int,
                root_id,
                force_redraw,
                force_relayout,
            ),
            forall|n: int|
                0 <= n < old(arena).nodes@.len() ==> (#[trigger] arena.nodes@[n]).update_tag == (
                if walk_visits_sp(
                    *old(arena),
                    parent as int,
                    k as int,
                    n,
                    root_id,
                    force_redraw,
                ) {
                    old(arena).nodes@[n].update_tag.mark_updated_sp(root_id)
                } else {
                    old(arena).nodes@[n].update_tag
                }),
            forall|n: int|
                0 <= n < old(arena).nodes@.len() && !walk_may_move_sp(
                    *old(arena),
                    parent as int,
                    k as int,
                    n,
                    root_id,
                    force_redraw,
                    force_relayout,
                ) ==> (#[trigger] arena.nodes@[n]).rect == old(arena).nodes@[n].rect,
        decreases num - k,
    {
        proof {
            assert(arena.wf_node(parent as int));
            assert(old(arena).wf_node(parent as int));
        }
        let child = match arena.child_by_index(parent, k) {
            Some(s) => s.widget,
            None => 0,
        };
        let ghost entry = *old(arena);
        let ghost kid = child as int;
        let ghost numch_child = entry.nodes@[kid].children@.len() as int;
        proof {
            // the child's tag is still the entry tag: everything stamped
            // so far lies in an earlier sibling's subtree, disjoint from
            // this child's
            if walk_visits_sp(entry, parent as int, k as int, kid, root_id, force_redraw) {
                lemma_walk_in_subtree(
                    entry,
                    parent as int,
                    k as int,
                    kid,
                    root_id,
                    force_redraw,
                    force_relayout,
                );
                let j = choose|j: int|
                    0 <= j < k && entry.in_subtree(
                        (#[trigger] entry.nodes@[parent as int].children@[j]).widget as int,
                        kid,
                    );
                entry.lemma_subtree_refl(kid);
                entry.lemma_subtree_disjoint(parent as int, j, k as int, kid);
                assert(false);
            }
            assert(arena.nodes@[kid].update_tag == entry.nodes@[kid].update_tag);
        }
        let mut needs = arena.tag(child).needs_update(root_id);
        needs.render_self = needs.render_self || force_redraw;
        needs.update_child = needs.update_child || force_redraw;
        needs.update_layout = needs.update_layout || force_relayout;
        proof {
            assert(needs == joined_needs_sp(
                entry.nodes@[kid].update_tag,
                root_id,
                force_redraw,
                force_relayout,
            ));
        }
        let ghost mid0 = *arena;
        let ghost mut mid1 = mid0;

        match arena.kind(child) {
            WidgetKind::Parent => {
                if needs.update_layout {
                    solver.update_child_layout(arena, child);
                    steps.push(RenderStep::Layout { widget: child });
                }
                if needs.render_self {
                    steps.push(RenderStep::Render { widget: child });
                }
                proof {
                    mid1 = *arena;
                    // the solver only moved rectangles of this child's
                    // children
                    assert forall|n: int|
                        0 <= n < entry.nodes@.len() && !entry.is_child_sp(kid, n) implies (
                    #[trigger] mid1.nodes@[n]).rect == mid0.nodes@[n].rect by {
                        if mid0.is_child_sp(kid, n) {
                            let c = choose|c: int|
                                0 <= c < mid0.nodes@[kid].children@.len()
                                    && #[trigger] mid0.nodes@[kid].children@[c].widget == n;
                            assert(entry.nodes@[kid].children@[c].widget == n);
                            assert(entry.is_child_sp(kid, n));
                            assert(false);
                        }
                    }
                }
                if needs.update_child {
                    proof {
                        assert(parent < child < arena.nodes@.len());
                        // tags inside this child's subtree are still the
                        // entry tags, so the walks agree
                        assert forall|m: int|
                            0 <= m < entry.nodes@.len() && entry.in_subtree(kid, m) implies (
                        #[trigger] mid1.nodes@[m]).update_tag == entry.nodes@[m].update_tag by {
                            if walk_visits_sp(
                                entry,
                                parent as int,
                                k as int,
                                m,
                                root_id,
                                force_redraw,
                            ) {
                                lemma_walk_in_subtree(
                                    entry,
                                    parent as int,
                                    k as int,
                                    m,
                                    root_id,
                                    force_redraw,
                                    force_relayout,
                                );
                                let j = choose|j: int|
                                    0 <= j < k && entry.in_subtree(
                                        (#[trigger] entry.nodes@[parent as int].children@[j]).widget
                                            as int,
                                        m,
                                    );
                                entry.lemma_subtree_disjoint(parent as int, j, k as int, m);
                                assert(false);
                            }
                        }
                        lemma_walk_same_tags(
                            entry,
                            mid1,
                            kid,
                            numch_child,
                            0,
                            root_id,
                            force_redraw,
                            force_relayout,
                        );
                    }
                    let ghost steps1 = steps@;
                    render_children(
                        arena,
                        child,
                        root_id,
                        force_redraw,
                        force_relayout,
                        solver,
                        steps,
                    );
                    proof {
                        assert(steps@ == steps1 + walk_steps_sp(
                            entry,
                            kid,
                            numch_child,
                            root_id,
                            force_redraw,
                            force_relayout,
                        ));
                    }
                }
            },
            WidgetKind::Leaf => {
                if needs.render_self {
                    steps.push(RenderStep::Render { widget: child });
                }
            },
        }
        let ghost pre_mark = *arena;
        arena.mark_updated(child, root_id);
        proof {
            // steps: the walk over k+1 children appends this child's part
            assert(steps@ =~= old(steps)@ + walk_steps_sp(
                entry,
                parent as int,
                k as int + 1,
                root_id,
                force_redraw,
                force_relayout,
            ));
            // tags and rects: the per-iteration restoration
            lemma_restore_tags(
                entry,
                mid0,
                mid1,
                pre_mark,
                *arena,
                parent as int,
                k as int,
                root_id,
                force_redraw,
                force_relayout,
            );
            lemma_restore_rects(
                entry,
                mid0,
                mid1,
                *arena,
                parent as int,
                k as int,
                root_id,
                force_redraw,
                force_relayout,
            );
        }
        k += 1;
    }
    proof {
        assert(num == old(arena).nodes@[parent as int].children@.len());
    }
}

} // verus!
