//! Keyboard focus.
//!
//! The element that has keyboard focus is identified by a number (the key of
//! its emitter). Changing the focus tells which element loses the focus and
//! which gains it; the caller sends them `FocusLost` and `FocusGained`.

use vstd::prelude::*;

verus! {

/// Which element has keyboard focus, if any.
pub struct FocusState {
    focused: Option<u64>,
}

/// The elements to notify after a change of focus.
#[derive(Copy, Clone, Debug, PartialEq, Eq, Structural)]
pub struct FocusChange {
    /// The element that lost the focus.
    pub lost: Option<u64>,
    /// The element that gained the focus.
    pub gained: Option<u64>,
}

/// The focused element after focusing `target`, and who is notified.
pub open spec fn set_focus_spec(focused: Option<u64>, target: u64) -> (Option<u64>, FocusChange) {
    if focused == Some(target) {
        (focused, FocusChange { lost: None, gained: None })
    } else {
        (Some(target), FocusChange { lost: focused, gained: Some(target) })
    }
}

impl FocusState {
    /// The focused element.
    pub closed spec fn spec_focused(&self) -> Option<u64> {
        self.focused
    }

    /// Nothing has focus.
    pub fn new() -> (s: FocusState)
        ensures
            s.spec_focused() is None,
    {
        FocusState { focused: None }
    }

    /// Returns the element that has keyboard focus.
    pub fn get_keyboard_focus(&self) -> (r: Option<u64>)
        ensures
            r == self.spec_focused(),
    {
        self.focused
    }

    /// Gives the keyboard focus to `target`. If `target` already has it,
    /// nothing changes and nobody is notified.
    pub fn set_keyboard_focus(&mut self, target: u64) -> (c: FocusChange)
        ensures
            (final(self).spec_focused(), c) == set_focus_spec(old(self).spec_focused(), target),
    {
        match self.focused {
            Some(prev) => {
                if prev == target {
                    // the element already has focus
                    return FocusChange { lost: None, gained: None };
                }
                self.focused = Some(target);
                FocusChange { lost: Some(prev), gained: Some(target) }
            }
            None => {
                self.focused = Some(target);
                FocusChange { lost: None, gained: Some(target) }
            }
        }
    }

    /// Removes the keyboard focus; returns the element that lost it.
    pub fn clear_keyboard_focus(&mut self) -> (lost: Option<u64>)
        ensures
            final(self).spec_focused() is None,
            lost == old(self).spec_focused(),
    {
        let prev = self.focused;
        self.focused = None;
        prev
    }
}

/// Focusing the same element twice notifies nobody the second time.
pub proof fn lemma_set_focus_idempotent(focused: Option<u64>, target: u64)
    ensures
        ({
            let first = set_focus_spec(focused, target);
            let second = set_focus_spec(first.0, target);
            &&& first.0 == Some(target)
            &&& second.0 == first.0
            &&& second.1 == (FocusChange { lost: None, gained: None })
        }),
{
}

/// After a change of focus, exactly the element that had the focus before is
/// told it lost it, and the new one is told it gained it.
pub proof fn lemma_focus_handover(focused: u64, target: u64)
    requires
        focused != target,
    ensures
        set_focus_spec(Some(focused), target).1 == (FocusChange { lost: Some(focused), gained: Some(target) }),
{
}

} // verus!
