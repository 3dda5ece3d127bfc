//! Pointer capture: a two-state toggle driven by the edges of two inputs.

use vstd::prelude::*;

verus! {

/// Whether the pointer belongs to the game.
#[derive(Clone, Copy, Debug, PartialEq, Eq, Structural)]
pub enum CursorState {
    /// Pointer locked and hidden, controller input on.
    Captured,
    /// Pointer free and visible, controller input off.
    Released,
}

/// An input edge that the toggle reacts to.
#[derive(Clone, Copy, Debug, PartialEq, Eq, Structural)]
pub enum CursorEvent {
    /// The left mouse button went down.
    LeftPress,
    /// The Escape key went down.
    EscapePress,
}

impl CursorState {
    /// The state that an event leads to, whatever the state before.
    pub open spec fn after(self, event: CursorEvent) -> CursorState {
        match event {
            CursorEvent::LeftPress => CursorState::Captured,
            CursorEvent::EscapePress => CursorState::Released,
        }
    }

    /// The state after one frame: the left press is taken first, the Escape
    /// press after it, and a frame with neither changes nothing.
    pub open spec fn after_frame(self, left_pressed: bool, escape_pressed: bool) -> CursorState {
        let clicked = if left_pressed {
            self.after(CursorEvent::LeftPress)
        } else {
            self
        };
        if escape_pressed {
            clicked.after(CursorEvent::EscapePress)
        } else {
            clicked
        }
    }

    /// Whether the controller takes input in this state.
    pub open spec fn accepts_input(self) -> bool {
        self == CursorState::Captured
    }

    /// Takes one event.
    pub fn on_event(self, event: CursorEvent) -> (next: CursorState)
        ensures
            next == self.after(event),
    {
        match event {
            CursorEvent::LeftPress => CursorState::Captured,
            CursorEvent::EscapePress => CursorState::Released,
        }
    }

    /// Whether the pointer is locked to the window.
    pub fn pointer_locked(self) -> (locked: bool)
        ensures
            locked == (self == CursorState::Captured),
    {
        match self {
            CursorState::Captured => true,
            CursorState::Released => false,
        }
    }

    /// Whether the pointer is drawn.
    pub fn pointer_visible(self) -> (visible: bool)
        ensures
            visible == (self == CursorState::Released),
    {
        match self {
            CursorState::Captured => false,
            CursorState::Released => true,
        }
    }

    /// Whether the controller takes input.
    pub fn input_enabled(self) -> (enabled: bool)
        ensures
            enabled == self.accepts_input(),
    {
        match self {
            CursorState::Captured => true,
            CursorState::Released => false,
        }
    }
}

/// One frame of the toggle: what the state is after the frame's left press
/// and Escape press, each given as whether it happened in this frame.
pub fn manage_cursor(state: CursorState, left_pressed: bool, escape_pressed: bool) -> (next:
    CursorState)
    ensures
        next == state.after_frame(left_pressed, escape_pressed),
        !left_pressed && !escape_pressed ==> next == state,
        escape_pressed ==> next == CursorState::Released,
        left_pressed && !escape_pressed ==> next == CursorState::Captured,
{
    let mut next = state;
    if left_pressed {
        next = next.on_event(CursorEvent::LeftPress);
    }
    if escape_pressed {
        next = next.on_event(CursorEvent::EscapePress);
    }
    next
}

/// A left press followed by an Escape press ends released, with controller
/// input off, from either state; so does a frame that holds both.
pub proof fn lemma_click_then_escape_releases(start: CursorState)
    ensures
        start.after(CursorEvent::LeftPress).after(CursorEvent::EscapePress)
            == CursorState::Released,
        !start.after(CursorEvent::LeftPress).after(CursorEvent::EscapePress).accepts_input(),
        start.after_frame(true, false).after_frame(false, true) == CursorState::Released,
        start.after_frame(true, true) == CursorState::Released,
{
}

} // verus!
