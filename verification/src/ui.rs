//! The show/hide state of the user interface.
use vstd::prelude::*;

verus! {

/// Whether the interface window is shown, and whether a browser is connected.
#[derive(Clone, Copy, PartialEq, Eq, Structural, Debug)]
pub struct UiState {
    pub showing: bool,
    pub connected: bool,
}

impl UiState {
    /// Hidden, nobody connected.
    pub fn new() -> (s: UiState)
        ensures
            !s.showing,
            !s.connected,
    {
        UiState { showing: false, connected: false }
    }

    /// Show the interface; always succeeds (0).
    pub fn ui_show(&mut self) -> (r: i32)
        ensures
            r == 0,
            final(self).showing,
            final(self).connected == old(self).connected,
    {
        if self.showing {
            return 0i32;
        }
        self.showing = true;
        0i32
    }

    /// Hide the interface; always succeeds (0).
    pub fn ui_hide(&mut self) -> (r: i32)
        ensures
            r == 0,
            !final(self).showing,
            final(self).connected == old(self).connected,
    {
        self.showing = false;
        0i32
    }

    /// What the idle call answers: 1 once the interface is closed (not
    /// shown), which tells the host to stop calling, else 0.
    pub fn idle_result(&self) -> (r: i32)
        ensures
            r == if self.showing { 0i32 } else { 1i32 },
    {
        if self.showing {
            0
        } else {
            1
        }
    }
}

/// The byte offset of the external widget inside the interface record: it
/// is its first field, so 0.
pub fn get_offset() -> (r: isize)
    ensures
        r == 0,
{
    0
}

} // verus!
