//! Text positions and selections, as byte offsets into a text.

use vstd::prelude::*;
use vstd::string::StringSliceAdditionalSpecFns;

use crate::utf8_text::{byte_len, sliceable, slice_str};

verus! {

/// On which side of a position the caret leans.
#[derive(Debug, Clone, Copy, PartialEq, Eq, Structural)]
pub enum Affinity {
    Before,
    After,
}

/// A byte position in a text together with its affinity.
#[derive(Debug, Clone, Copy, PartialEq, Eq, Structural)]
pub struct TextPosition {
    pub index: usize,
    pub affinity: Affinity,
}

impl TextPosition {
    pub fn new(index: usize) -> (r: Self)
        ensures
            r.index == index,
            r.affinity == Affinity::Before,
    {
        TextPosition { index, affinity: Affinity::Before }
    }
}

/// A selection from `anchor` (where it started) to `focus` (where the caret is).
#[derive(Debug, Clone, Copy, PartialEq, Eq, Structural)]
pub struct TextSelection {
    pub anchor: usize,
    pub focus: usize,
}

/// The smaller of two offsets.
pub open spec fn min_offset(a: int, b: int) -> int {
    if a <= b {
        a
    } else {
        b
    }
}

impl TextSelection {
    /// The selected range, smaller end first.
    pub open spec fn spec_range(&self) -> (usize, usize) {
        if self.anchor <= self.focus {
            (self.anchor, self.focus)
        } else {
            (self.focus, self.anchor)
        }
    }

    /// The byte range `selected_text` reads from a text of `len` bytes.
    pub open spec fn clamped_range(&self, len: int) -> (int, int) {
        (min_offset(self.spec_range().0 as int, len), min_offset(self.spec_range().1 as int, len))
    }

    /// An empty selection at `index`.
    pub fn collapsed(index: usize) -> (r: Self)
        ensures
            r.anchor == index,
            r.focus == index,
    {
        TextSelection { anchor: index, focus: index }
    }

    pub fn is_collapsed(&self) -> (r: bool)
        ensures
            r == (self.anchor == self.focus),
    {
        self.anchor == self.focus
    }

    pub fn range(&self) -> (r: (usize, usize))
        ensures
            r == self.spec_range(),
            r.0 <= r.1,
    {
        if self.anchor <= self.focus {
            (self.anchor, self.focus)
        } else {
            (self.focus, self.anchor)
        }
    }

    /// The selected part of `source`, the range being cut at the end of the text.
    pub fn selected_text<'a>(&self, source: &'a str) -> (r: &'a str)
        requires
            sliceable(
                source.spec_bytes(),
                self.clamped_range(source.spec_bytes().len() as int).0,
                self.clamped_range(source.spec_bytes().len() as int).1,
            ),
        ensures
            r.spec_bytes() == source.spec_bytes().subrange(
                self.clamped_range(source.spec_bytes().len() as int).0,
                self.clamped_range(source.spec_bytes().len() as int).1,
            ),
    {
        let (start, end) = self.range();
        let len = byte_len(source);
        let start = if start <= len {
            start
        } else {
            len
        };
        let end = if end <= len {
            end
        } else {
            len
        };
        slice_str(source, start, end)
    }
}

impl Default for TextSelection {
    fn default() -> (r: Self)
        ensures
            r.anchor == 0,
            r.focus == 0,
    {
        Self::collapsed(0)
    }
}

} // verus!
