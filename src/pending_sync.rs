use vstd::prelude::*;

verus! {

/// Side effects gathered during one batch of commands, applied together
/// to the native layer at the batch's end.
#[derive(Debug, Clone, Copy, PartialEq, Eq, Structural)]
pub struct PendingSync {
    pub focus_change: bool,
    pub cursor_jump: bool,
    pub redraw: bool,
}

impl PendingSync {
    /// Nothing queued.
    pub fn new() -> (r: PendingSync)
        ensures
            !r.focus_change && !r.cursor_jump && !r.redraw,
    {
        PendingSync { focus_change: false, cursor_jump: false, redraw: false }
    }

    /// Queues a change of the focused window.
    pub fn queue_focus_change(&mut self)
        ensures
            *final(self) == (PendingSync { focus_change: true, ..*old(self) }),
    {
        self.focus_change = true;
    }

    /// Queues a move of the cursor onto the focused window.
    pub fn queue_cursor_jump(&mut self)
        ensures
            *final(self) == (PendingSync { cursor_jump: true, ..*old(self) }),
    {
        self.cursor_jump = true;
    }

    /// Queues a redraw of the layout.
    pub fn queue_redraw(&mut self)
        ensures
            *final(self) == (PendingSync { redraw: true, ..*old(self) }),
    {
        self.redraw = true;
    }

    /// Whether anything is queued.
    pub fn is_empty(&self) -> (r: bool)
        ensures
            r == (!self.focus_change && !self.cursor_jump && !self.redraw),
    {
        !self.focus_change && !self.cursor_jump && !self.redraw
    }

    /// Takes what is queued, leaving nothing queued.
    pub fn take(&mut self) -> (r: PendingSync)
        ensures
            r == *old(self),
            final(self).is_empty_spec(),
    {
        let r = *self;
        *self = PendingSync::new();
        r
    }

    pub open spec fn is_empty_spec(&self) -> bool {
        !self.focus_change && !self.cursor_jump && !self.redraw
    }
}

} // verus!
