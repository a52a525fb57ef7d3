//! Interactive elements: their identifiers, their state flags, the events
//! they emit, and how a frame reacts to the pointer.

use vstd::prelude::*;

verus! {

/// Identifies an element.
#[derive(Copy, Clone, Debug, Eq, PartialEq, Hash, Structural)]
pub struct ElementId(pub u32);

impl Default for ElementId {
    fn default() -> (r: ElementId)
        ensures
            r.0 == 0,
    {
        ElementId(0)
    }
}

/// Event emitted by some elements when they are clicked.
#[derive(Copy, Clone, Debug, Eq, PartialEq, Hash, Structural)]
pub struct ClickedEvent(pub ElementId);

/// Event emitted by some elements when the pointer is entering or leaving
/// the element.
#[derive(Copy, Clone, Debug, Eq, PartialEq, Hash, Structural)]
pub struct HoveredEvent(pub ElementId, pub bool);

/// Event emitted by some elements when they are pressed or released.
#[derive(Copy, Clone, Debug, Eq, PartialEq, Hash, Structural)]
pub struct ActivatedEvent(pub ElementId, pub bool);

/// Flags describing the state of an interactive element.
#[derive(Copy, Clone, Debug, Eq, PartialEq, Hash, Structural)]
pub struct ElementState {
    bits: u8,
}

/// Event emitted by some elements when their state changes.
#[derive(Copy, Clone, Debug, Eq, PartialEq, Hash, Structural)]
pub struct ElementStateChanged(pub ElementId, pub ElementState);

proof fn lemma_flag_set(bits: u8, f: u8, g: u8)
    by (bit_vector)
    requires
        f == 1 || f == 2 || f == 4,
        g == 1 || g == 2 || g == 4,
    ensures
        ((bits | f) & g == g) == (f == g || bits & g == g),
        ((bits & !f) & g == g) == (f != g && bits & g == g),
        (0u8 & g == g) == false,
{
}

impl ElementState {
    /// The element is active (e.g. pressed).
    pub const ACTIVE: u8 = 1;
    /// The mouse is hovering over the element.
    pub const HOVERED: u8 = 2;
    /// The element has focus.
    pub const FOCUSED: u8 = 4;

    /// The bits of the flags.
    pub closed spec fn spec_bits(self) -> u8 {
        self.bits
    }

    /// The flag `f` is set.
    pub open spec fn has(self, f: u8) -> bool {
        self.spec_bits() & f == f
    }

    /// No flag set.
    pub fn empty() -> (r: ElementState)
        ensures
            !r.has(Self::ACTIVE),
            !r.has(Self::HOVERED),
            !r.has(Self::FOCUSED),
    {
        proof {
            lemma_flag_set(0, 1, 1);
            lemma_flag_set(0, 1, 2);
            lemma_flag_set(0, 1, 4);
        }
        ElementState { bits: 0 }
    }

    /// The bits of the flags.
    pub fn bits(&self) -> (r: u8)
        ensures
            r == self.spec_bits(),
    {
        self.bits
    }

    /// Whether every bit of `f` is set.
    pub fn contains(&self, f: u8) -> (r: bool)
        ensures
            r == self.has(f),
    {
        self.bits & f == f
    }

    /// Sets or clears the flag `f`, one of `ACTIVE`, `HOVERED`, `FOCUSED`.
    pub fn set(&mut self, f: u8, value: bool)
        requires
            f == Self::ACTIVE || f == Self::HOVERED || f == Self::FOCUSED,
        ensures
            final(self).has(f) == value,
            forall|g: u8| (g == Self::ACTIVE || g == Self::HOVERED || g == Self::FOCUSED) && g != f
                ==> #[trigger] final(self).has(g) == old(self).has(g),
    {
        let old_bits = self.bits;
        if value {
            self.bits = self.bits | f;
        } else {
            self.bits = self.bits & !f;
        }
        proof {
            assert forall|g: u8| (g == Self::ACTIVE || g == Self::HOVERED || g == Self::FOCUSED)
                implies #[trigger] final(self).has(g) == if g == f { value } else { old(self).has(g) } by {
                lemma_flag_set(old_bits, f, g);
            }
        }
    }

    /// Sets the `ACTIVE` flag.
    pub fn set_active(&mut self, active: bool)
        ensures
            final(self).has(Self::ACTIVE) == active,
            final(self).has(Self::HOVERED) == old(self).has(Self::HOVERED),
            final(self).has(Self::FOCUSED) == old(self).has(Self::FOCUSED),
    {
        self.set(Self::ACTIVE, active);
    }

    /// Sets the `HOVERED` flag.
    pub fn set_hovered(&mut self, hovered: bool)
        ensures
            final(self).has(Self::HOVERED) == hovered,
            final(self).has(Self::ACTIVE) == old(self).has(Self::ACTIVE),
            final(self).has(Self::FOCUSED) == old(self).has(Self::FOCUSED),
    {
        self.set(Self::HOVERED, hovered);
    }

    /// Sets the `FOCUSED` flag.
    pub fn set_focused(&mut self, focused: bool)
        ensures
            final(self).has(Self::FOCUSED) == focused,
            final(self).has(Self::ACTIVE) == old(self).has(Self::ACTIVE),
            final(self).has(Self::HOVERED) == old(self).has(Self::HOVERED),
    {
        self.set(Self::FOCUSED, focused);
    }

    /// Returns `true` if the `ACTIVE` flag is set.
    pub fn is_active(&self) -> (r: bool)
        ensures
            r == self.has(Self::ACTIVE),
    {
        self.contains(Self::ACTIVE)
    }

    /// Returns `true` if the `HOVERED` flag is set.
    pub fn is_hovered(&self) -> (r: bool)
        ensures
            r == self.has(Self::HOVERED),
    {
        self.contains(Self::HOVERED)
    }

    /// Returns `true` if the `FOCUSED` flag is set.
    pub fn is_focused(&self) -> (r: bool)
        ensures
            r == self.has(Self::FOCUSED),
    {
        self.contains(Self::FOCUSED)
    }
}

impl Default for ElementState {
    /// No flag set.
    fn default() -> (r: ElementState)
        ensures
            !r.has(ElementState::ACTIVE),
            !r.has(ElementState::HOVERED),
            !r.has(ElementState::FOCUSED),
    {
        ElementState::empty()
    }
}

/// A pointer event, as far as a frame cares.
#[derive(Copy, Clone, Debug, Eq, PartialEq, Structural)]
pub enum PointerEvent {
    PointerDown,
    PointerUp,
    PointerEnter,
    PointerLeave,
    Other,
}

/// An event that a frame emits.
#[derive(Copy, Clone, Debug, Eq, PartialEq, Structural)]
pub enum FrameEmit {
    /// The state of the frame changed (`ElementStateChanged`).
    StateChanged(ElementState),
    /// The frame was pressed or released (`ActivatedEvent`).
    Activated(bool),
    /// The frame was clicked (`ClickedEvent`).
    Clicked,
    /// The pointer entered or left the frame (`HoveredEvent`).
    Hovered(bool),
}

/// The interaction state of a frame: its state flags, whether they affect
/// its style, and whether its style must be resolved again.
pub struct FrameState {
    pub state: ElementState,
    pub state_affects_style: bool,
    pub style_changed: bool,
}

impl FrameState {
    /// Records the new state: emits it, and if the style depends on it,
    /// marks the style as changed and asks for a repaint.
    fn update_state(&mut self, state: ElementState, emitted: &mut Vec<FrameEmit>) -> (needs_paint: bool)
        ensures
            final(self).state == state,
            final(self).state_affects_style == old(self).state_affects_style,
            final(self).style_changed == (old(self).style_changed || old(self).state_affects_style),
            needs_paint == old(self).state_affects_style,
            final(emitted)@ == old(emitted)@.push(FrameEmit::StateChanged(state)),
    {
        self.state = state;
        emitted.push(FrameEmit::StateChanged(state));
        if self.state_affects_style {
            self.style_changed = true;
            true
        } else {
            false
        }
    }

    /// Reacts to a pointer event: returns the events to emit, in order, and
    /// whether the frame must be repainted. Releasing the pointer over an
    /// active frame emits a click; the frame stays active.
    pub fn event(&mut self, event: PointerEvent) -> (r: (Vec<FrameEmit>, bool))
        ensures
            final(self).state_affects_style == old(self).state_affects_style,
            ({
                let s0 = old(self).state;
                let s1 = final(self).state;
                let affects = old(self).state_affects_style;
                let restyle = final(self).style_changed == (old(self).style_changed || affects) && r.1 == affects;
                let unchanged = s1 == s0 && final(self).style_changed == old(self).style_changed && !r.1;
                match event {
                    PointerEvent::PointerDown => {
                        &&& s1.has(ElementState::ACTIVE)
                        &&& s1.has(ElementState::HOVERED) == s0.has(ElementState::HOVERED)
                        &&& s1.has(ElementState::FOCUSED) == s0.has(ElementState::FOCUSED)
                        &&& restyle
                        &&& r.0@ == seq![FrameEmit::StateChanged(s1), FrameEmit::Activated(true)]
                    },
                    PointerEvent::PointerUp => if s0.has(ElementState::ACTIVE) {
                        &&& s1 == s0
                        &&& restyle
                        &&& r.0@ == seq![FrameEmit::Activated(false), FrameEmit::StateChanged(s0), FrameEmit::Clicked]
                    } else {
                        unchanged && r.0@ == Seq::<FrameEmit>::empty()
                    },
                    PointerEvent::PointerEnter => {
                        &&& s1.has(ElementState::HOVERED)
                        &&& s1.has(ElementState::ACTIVE) == s0.has(ElementState::ACTIVE)
                        &&& s1.has(ElementState::FOCUSED) == s0.has(ElementState::FOCUSED)
                        &&& restyle
                        &&& r.0@ == seq![FrameEmit::StateChanged(s1), FrameEmit::Hovered(true)]
                    },
                    PointerEvent::PointerLeave => {
                        &&& !s1.has(ElementState::HOVERED)
                        &&& s1.has(ElementState::ACTIVE) == s0.has(ElementState::ACTIVE)
                        &&& s1.has(ElementState::FOCUSED) == s0.has(ElementState::FOCUSED)
                        &&& restyle
                        &&& r.0@ == seq![FrameEmit::StateChanged(s1), FrameEmit::Hovered(false)]
                    },
                    PointerEvent::Other => unchanged && r.0@ == Seq::<FrameEmit>::empty(),
                }
            }),
    {
        let mut emitted: Vec<FrameEmit> = Vec::new();
        let mut needs_paint = false;
        match event {
            PointerEvent::PointerDown => {
                let mut s = self.state;
                s.set_active(true);
                needs_paint = self.update_state(s, &mut emitted);
                emitted.push(FrameEmit::Activated(true));
            },
            PointerEvent::PointerUp => {
                if self.state.is_active() {
                    emitted.push(FrameEmit::Activated(false));
                    let s = self.state;
                    needs_paint = self.update_state(s, &mut emitted);
                    emitted.push(FrameEmit::Clicked);
                }
            },
            PointerEvent::PointerEnter => {
                let mut s = self.state;
                s.set_hovered(true);
                needs_paint = self.update_state(s, &mut emitted);
                emitted.push(FrameEmit::Hovered(true));
            },
            PointerEvent::PointerLeave => {
                let mut s = self.state;
                s.set_hovered(false);
                needs_paint = self.update_state(s, &mut emitted);
                emitted.push(FrameEmit::Hovered(false));
            },
            PointerEvent::Other => {},
        }
        (emitted, needs_paint)
    }
}

} // verus!
