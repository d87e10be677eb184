//! Mouse buttons and the compact sequence of currently-pressed buttons
//! kept per node and for the window as a whole.

use vstd::prelude::*;

verus! {

/// One of the five mouse buttons the event model distinguishes.
#[derive(Debug, Clone, Copy, PartialEq, Eq, Hash, Structural)]
pub enum MouseButton {
    Left,
    Right,
    Middle,
    X1,
    X2,
}

/// The buttons currently held down, in the order they were pressed.
/// Holds each button at most once.
#[derive(Debug, Clone, PartialEq, Eq)]
pub struct MouseButtonSequence {
    buttons: Vec<MouseButton>,
}

impl View for MouseButtonSequence {
    type V = Seq<MouseButton>;

    closed spec fn view(&self) -> Seq<MouseButton> {
        self.buttons@
    }
}

impl MouseButtonSequence {
    /// No button occurs twice.
    pub open spec fn wf(self) -> bool {
        forall|i: int, j: int| 0 <= i < j < self@.len() ==> self@[i] != self@[j]
    }

    pub fn new() -> (r: MouseButtonSequence)
        ensures
            r@ == Seq::<MouseButton>::empty(),
            r.wf(),
    {
        MouseButtonSequence { buttons: Vec::new() }
    }

    pub fn len(&self) -> (r: usize)
        ensures
            r == self@.len(),
    {
        self.buttons.len()
    }

    /// Whether `button` is currently held.
    pub fn contains(&self, button: MouseButton) -> (r: bool)
        ensures
            r == self@.contains(button),
    {
        let mut i: usize = 0;
        while i < self.buttons.len()
            invariant
                0 <= i <= self@.len(),
                forall|k: int| 0 <= k < i ==> self@[k] != button,
            decreases self@.len() - i,
        {
            if self.buttons[i] == button {
                return true;
            }
            i += 1;
        }
        false
    }

    /// The button at `index`, in press order.
    pub fn get(&self, index: usize) -> (r: MouseButton)
        requires
            index < self@.len(),
        ensures
            r == self@[index as int],
    {
        self.buttons[index]
    }

    /// An equal copy, for handing the held buttons out in event payloads.
    pub fn snapshot(&self) -> (r: MouseButtonSequence)
        ensures
            r@ == self@,
    {
        let mut buttons: Vec<MouseButton> = Vec::new();
        let mut i: usize = 0;
        while i < self.buttons.len()
            invariant
                0 <= i <= self@.len(),
                buttons@ == self@.take(i as int),
            decreases self@.len() - i,
        {
            buttons.push(self.buttons[i]);
            proof {
                assert(buttons@ == self@.take(i + 1));
            }
            i += 1;
        }
        proof {
            assert(self@.take(self@.len() as int) == self@);
        }
        MouseButtonSequence { buttons }
    }

    /// Record a press: appends the button unless it is already held.
    pub fn push_button(&mut self, button: MouseButton)
        requires
            old(self).wf(),
        ensures
            final(self).wf(),
            old(self)@.contains(button) ==> final(self)@ == old(self)@,
            !old(self)@.contains(button) ==> final(self)@ == old(self)@.push(button),
            final(self)@.contains(button),
    {
        if !self.contains(button) {
            self.buttons.push(button);
            assert(self@.last() == button);
            assert(self@.contains(button));
        }
    }

    /// Record a release: removes the button if it is held.
    pub fn release_button(&mut self, button: MouseButton)
        requires
            old(self).wf(),
        ensures
            final(self).wf(),
            !final(self)@.contains(button),
            forall|b: MouseButton| b != button ==> (final(self)@.contains(b) == old(
                self,
            )@.contains(b)),
            !old(self)@.contains(button) ==> final(self)@ == old(self)@,
    {
        let mut i: usize = 0;
        while i < self.buttons.len()
            invariant
                old(self) == self,
                old(self).wf(),
                0 <= i <= self@.len(),
                forall|k: int| 0 <= k < i ==> self@[k] != button,
            decreases self@.len() - i,
        {
            if self.buttons[i] == button {
                let ghost prev = self@;
                self.buttons.remove(i);
                proof {
                    assert(self@ == prev.remove(i as int));
                    assert forall|b: MouseButton| b != button implies (self@.contains(b) == prev.contains(b)) by {
                        if prev.contains(b) {
                            let k = choose|k: int| 0 <= k < prev.len() && prev[k] == b;
                            if k < i {
                                assert(self@[k] == b);
                            } else {
                                assert(k > i);
                                assert(self@[k - 1] == b);
                            }
                        }
                        if self@.contains(b) {
                            let k = choose|k: int| 0 <= k < self@.len() && self@[k] == b;
                            if k < i {
                                assert(prev[k] == b);
                            } else {
                                assert(prev[k + 1] == b);
                            }
                        }
                    }
                    assert(prev[i as int] == button);
                    assert forall|k: int| 0 <= k < self@.len() implies self@[k] != button by {
                        if k < i {
                            assert(self@[k] == prev[k]);
                        } else {
                            assert(self@[k] == prev[k + 1]);
                            assert(prev[k + 1] != prev[i as int]);
                        }
                    }
                    assert forall|a: int, b2: int| 0 <= a < b2 < self@.len() implies self@[a]
                        != self@[b2] by {
                        let pa = if a < i { a } else { a + 1 };
                        let pb = if b2 < i { b2 } else { b2 + 1 };
                        assert(self@[a] == prev[pa]);
                        assert(self@[b2] == prev[pb]);
                        assert(prev[pa] != prev[pb]);
                    }
                }
                return ;
            }
            i += 1;
        }
    }
}

} // verus!
