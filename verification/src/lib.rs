//! Retained-mode core of a desktop UI toolkit.
//!
//! The library owns a widget tree, routes input events through it with
//! geometrically exact enter/exit crossing detection and pointer capture,
//! tracks which subtrees require re-layout or re-paint through per-node
//! update tags, and drives a dirty-aware render walk that skips clean
//! subtrees entirely.

use vstd::prelude::*;

pub mod arena;
pub mod bounds;
pub mod buttons;
pub mod cer;
pub mod render;
pub mod root;
pub mod stack;
pub mod tags;
pub mod geometry;
pub mod ident;

verus! {

/// Whether a driving loop should go on or break out with a value.
#[must_use]
#[derive(Debug, Clone, Copy, PartialEq, Eq)]
pub enum LoopFlow<R> {
    Continue,
    Break(R),
}

impl<R> LoopFlow<R> {
    /// The break value, if any.
    pub fn into_option(self) -> (r: Option<R>)
        ensures
            r == (match self {
                LoopFlow::Continue => None::<R>,
                LoopFlow::Break(v) => Some(v),
            }),
    {
        match self {
            LoopFlow::Continue => None,
            LoopFlow::Break(v) => Some(v),
        }
    }
}

} // verus!
