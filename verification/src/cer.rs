//! The per-node summary of event classes some descendant cares about:
//! a fixed, closed set of five mouse buttons, hover, and keyboard,
//! with union, difference and intersection.

use vstd::prelude::*;
use crate::buttons::MouseButton;
use crate::buttons::MouseButtonSequence;

verus! {

/// A set over the closed event-class alphabet {five mouse buttons,
/// hover, keyboard}.
#[derive(Debug, Clone, Copy, PartialEq, Eq, Hash, Structural)]
pub struct ChildEventRecv {
    pub mouse_l: bool,
    pub mouse_r: bool,
    pub mouse_m: bool,
    pub mouse_x1: bool,
    pub mouse_x2: bool,
    pub mouse_hover: bool,
    pub keyboard: bool,
}

impl ChildEventRecv {
    /// The empty set.
    pub open spec fn empty_sp() -> ChildEventRecv {
        ChildEventRecv {
            mouse_l: false,
            mouse_r: false,
            mouse_m: false,
            mouse_x1: false,
            mouse_x2: false,
            mouse_hover: false,
            keyboard: false,
        }
    }

    pub open spec fn union_sp(self, other: ChildEventRecv) -> ChildEventRecv {
        ChildEventRecv {
            mouse_l: self.mouse_l || other.mouse_l,
            mouse_r: self.mouse_r || other.mouse_r,
            mouse_m: self.mouse_m || other.mouse_m,
            mouse_x1: self.mouse_x1 || other.mouse_x1,
            mouse_x2: self.mouse_x2 || other.mouse_x2,
            mouse_hover: self.mouse_hover || other.mouse_hover,
            keyboard: self.keyboard || other.keyboard,
        }
    }

    pub open spec fn intersect_sp(self, other: ChildEventRecv) -> ChildEventRecv {
        ChildEventRecv {
            mouse_l: self.mouse_l && other.mouse_l,
            mouse_r: self.mouse_r && other.mouse_r,
            mouse_m: self.mouse_m && other.mouse_m,
            mouse_x1: self.mouse_x1 && other.mouse_x1,
            mouse_x2: self.mouse_x2 && other.mouse_x2,
            mouse_hover: self.mouse_hover && other.mouse_hover,
            keyboard: self.keyboard && other.keyboard,
        }
    }

    pub open spec fn subtract_sp(self, other: ChildEventRecv) -> ChildEventRecv {
        ChildEventRecv {
            mouse_l: self.mouse_l && !other.mouse_l,
            mouse_r: self.mouse_r && !other.mouse_r,
            mouse_m: self.mouse_m && !other.mouse_m,
            mouse_x1: self.mouse_x1 && !other.mouse_x1,
            mouse_x2: self.mouse_x2 && !other.mouse_x2,
            mouse_hover: self.mouse_hover && !other.mouse_hover,
            keyboard: self.keyboard && !other.keyboard,
        }
    }

    pub open spec fn is_empty_sp(self) -> bool {
        self == ChildEventRecv::empty_sp()
    }

    /// Every class in `other` is in `self`.
    pub open spec fn superset_sp(self, other: ChildEventRecv) -> bool {
        &&& (other.mouse_l ==> self.mouse_l)
        &&& (other.mouse_r ==> self.mouse_r)
        &&& (other.mouse_m ==> self.mouse_m)
        &&& (other.mouse_x1 ==> self.mouse_x1)
        &&& (other.mouse_x2 ==> self.mouse_x2)
        &&& (other.mouse_hover ==> self.mouse_hover)
        &&& (other.keyboard ==> self.keyboard)
    }

    /// Some class lies in both sets.
    pub open spec fn intersects_sp(self, other: ChildEventRecv) -> bool {
        !self.intersect_sp(other).is_empty_sp()
    }

    /// The set holding exactly `button`'s class.
    pub open spec fn button_mask_sp(button: MouseButton) -> ChildEventRecv {
        ChildEventRecv {
            mouse_l: button == MouseButton::Left,
            mouse_r: button == MouseButton::Right,
            mouse_m: button == MouseButton::Middle,
            mouse_x1: button == MouseButton::X1,
            mouse_x2: button == MouseButton::X2,
            mouse_hover: false,
            keyboard: false,
        }
    }

    /// Whether `button`'s class is in the set.
    pub open spec fn has_button_sp(self, button: MouseButton) -> bool {
        match button {
            MouseButton::Left => self.mouse_l,
            MouseButton::Right => self.mouse_r,
            MouseButton::Middle => self.mouse_m,
            MouseButton::X1 => self.mouse_x1,
            MouseButton::X2 => self.mouse_x2,
        }
    }

    /// The union of the button classes of every button in `seq`.
    pub open spec fn from_mbseq_sp(seq: Seq<MouseButton>) -> ChildEventRecv
        decreases seq.len(),
    {
        if seq.len() == 0 {
            ChildEventRecv::empty_sp()
        } else {
            ChildEventRecv::from_mbseq_sp(seq.drop_last()).union_sp(
                ChildEventRecv::button_mask_sp(seq.last()),
            )
        }
    }

    pub fn empty() -> (r: ChildEventRecv)
        ensures
            r == ChildEventRecv::empty_sp(),
    {
        ChildEventRecv {
            mouse_l: false,
            mouse_r: false,
            mouse_m: false,
            mouse_x1: false,
            mouse_x2: false,
            mouse_hover: false,
            keyboard: false,
        }
    }

    pub fn union(self, other: ChildEventRecv) -> (r: ChildEventRecv)
        ensures
            r == self.union_sp(other),
    {
        ChildEventRecv {
            mouse_l: self.mouse_l || other.mouse_l,
            mouse_r: self.mouse_r || other.mouse_r,
            mouse_m: self.mouse_m || other.mouse_m,
            mouse_x1: self.mouse_x1 || other.mouse_x1,
            mouse_x2: self.mouse_x2 || other.mouse_x2,
            mouse_hover: self.mouse_hover || other.mouse_hover,
            keyboard: self.keyboard || other.keyboard,
        }
    }

    pub fn intersect(self, other: ChildEventRecv) -> (r: ChildEventRecv)
        ensures
            r == self.intersect_sp(other),
    {
        ChildEventRecv {
            mouse_l: self.mouse_l && other.mouse_l,
            mouse_r: self.mouse_r && other.mouse_r,
            mouse_m: self.mouse_m && other.mouse_m,
            mouse_x1: self.mouse_x1 && other.mouse_x1,
            mouse_x2: self.mouse_x2 && other.mouse_x2,
            mouse_hover: self.mouse_hover && other.mouse_hover,
            keyboard: self.keyboard && other.keyboard,
        }
    }

    pub fn subtract(self, other: ChildEventRecv) -> (r: ChildEventRecv)
        ensures
            r == self.subtract_sp(other),
    {
        ChildEventRecv {
            mouse_l: self.mouse_l && !other.mouse_l,
            mouse_r: self.mouse_r && !other.mouse_r,
            mouse_m: self.mouse_m && !other.mouse_m,
            mouse_x1: self.mouse_x1 && !other.mouse_x1,
            mouse_x2: self.mouse_x2 && !other.mouse_x2,
            mouse_hover: self.mouse_hover && !other.mouse_hover,
            keyboard: self.keyboard && !other.keyboard,
        }
    }

    pub fn is_empty(self) -> (r: bool)
        ensures
            r == self.is_empty_sp(),
    {
        !(self.mouse_l || self.mouse_r || self.mouse_m || self.mouse_x1 || self.mouse_x2
            || self.mouse_hover || self.keyboard)
    }

    pub fn intersects(self, other: ChildEventRecv) -> (r: bool)
        ensures
            r == self.intersects_sp(other),
    {
        !self.intersect(other).is_empty()
    }

    pub fn superset(self, other: ChildEventRecv) -> (r: bool)
        ensures
            r == self.superset_sp(other),
    {
        (!other.mouse_l || self.mouse_l) && (!other.mouse_r || self.mouse_r) && (!other.mouse_m
            || self.mouse_m) && (!other.mouse_x1 || self.mouse_x1) && (!other.mouse_x2
            || self.mouse_x2) && (!other.mouse_hover || self.mouse_hover) && (!other.keyboard
            || self.keyboard)
    }

    pub fn mouse_button_mask(button: MouseButton) -> (r: ChildEventRecv)
        ensures
            r == ChildEventRecv::button_mask_sp(button),
    {
        let mut r = ChildEventRecv::empty();
        match button {
            MouseButton::Left => r.mouse_l = true,
            MouseButton::Right => r.mouse_r = true,
            MouseButton::Middle => r.mouse_m = true,
            MouseButton::X1 => r.mouse_x1 = true,
            MouseButton::X2 => r.mouse_x2 = true,
        }
        r
    }

    /// The union of the button classes of every held button.
    pub fn from_mbseq(seq: &MouseButtonSequence) -> (r: ChildEventRecv)
        ensures
            r == ChildEventRecv::from_mbseq_sp(seq@),
    {
        let mut r = ChildEventRecv::empty();
        let mut i: usize = 0;
        while i < seq.len()
            invariant
                0 <= i <= seq@.len(),
                r == ChildEventRecv::from_mbseq_sp(seq@.take(i as int)),
            decreases seq@.len() - i,
        {
            proof {
                assert(seq@.take(i + 1).drop_last() == seq@.take(i as int));
                assert(seq@.take(i + 1).last() == seq@[i as int]);
            }
            r = r.union(ChildEventRecv::mouse_button_mask(seq.get(i)));
            i += 1;
        }
        proof {
            assert(seq@.take(seq@.len() as int) == seq@);
        }
        r
    }
}

/// The summary built from held buttons concerns buttons alone.
pub proof fn lemma_from_mbseq_buttons_only(seq: Seq<MouseButton>)
    ensures
        !ChildEventRecv::from_mbseq_sp(seq).mouse_hover,
        !ChildEventRecv::from_mbseq_sp(seq).keyboard,
    decreases seq.len(),
{
    if seq.len() > 0 {
        lemma_from_mbseq_buttons_only(seq.drop_last());
    }
}

/// Holding a button is exactly having its class in the summary built
/// from the held-button sequence.
pub proof fn lemma_from_mbseq_has_button(seq: Seq<MouseButton>, button: MouseButton)
    ensures
        ChildEventRecv::from_mbseq_sp(seq).has_button_sp(button) == seq.contains(button),
    decreases seq.len(),
{
    if seq.len() > 0 {
        lemma_from_mbseq_has_button(seq.drop_last(), button);
        if seq.contains(button) {
            let k = choose|k: int| 0 <= k < seq.len() && seq[k] == button;
            if k < seq.len() - 1 {
                assert(seq.drop_last()[k] == button);
            }
        } else {
            assert(forall|k: int| 0 <= k < seq.len() - 1 ==> seq.drop_last()[k] == seq[k]);
        }
    }
}

} // verus!
