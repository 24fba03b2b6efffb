//! State of an input-method composition (pre-edit text not yet committed).

use vstd::prelude::*;

verus! {

/// The pre-edit text an input method shows while composing, and its caret range.
#[derive(Debug, Clone)]
pub struct CompositionState {
    pub preedit_text: Option<String>,
    pub cursor_range: Option<(usize, usize)>,
}

impl Default for CompositionState {
    fn default() -> (r: Self)
        ensures
            r.preedit_text is None,
            r.cursor_range is None,
    {
        CompositionState { preedit_text: None, cursor_range: None }
    }
}

impl CompositionState {
    pub fn is_composing(&self) -> (r: bool)
        ensures
            r == self.preedit_text is Some,
    {
        self.preedit_text.is_some()
    }

    pub fn set_preedit(&mut self, text: String, cursor: Option<(usize, usize)>)
        ensures
            final(self).preedit_text == Some(text),
            final(self).cursor_range == cursor,
    {
        self.preedit_text = Some(text);
        self.cursor_range = cursor;
    }

    /// Ends the composition and hands out the pre-edit text, if there was one.
    pub fn commit(&mut self) -> (r: Option<String>)
        ensures
            r == old(self).preedit_text,
            final(self).preedit_text is None,
            final(self).cursor_range is None,
    {
        self.cursor_range = None;
        self.preedit_text.take()
    }

    pub fn clear(&mut self)
        ensures
            final(self).preedit_text is None,
            final(self).cursor_range is None,
    {
        self.preedit_text = None;
        self.cursor_range = None;
    }
}

} // verus!
