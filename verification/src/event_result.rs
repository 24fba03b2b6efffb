//! What handling an input event asks of the window.

use vstd::prelude::*;

use crate::style::CursorStyle;

verus! {

/// Whether the window must be redrawn and which cursor to show, if it changed.
pub struct EventResult {
    pub needs_redraw: bool,
    pub cursor_changed: Option<CursorStyle>,
}

impl EventResult {
    /// Nothing to do.
    pub fn none() -> (r: Self)
        ensures
            !r.needs_redraw,
            r.cursor_changed is None,
    {
        EventResult { needs_redraw: false, cursor_changed: None }
    }

    /// A redraw, the cursor unchanged.
    pub fn redraw() -> (r: Self)
        ensures
            r.needs_redraw,
            r.cursor_changed is None,
    {
        EventResult { needs_redraw: true, cursor_changed: None }
    }
}

} // verus!
