//! Font selection attributes and rasterized glyph images.

use vstd::prelude::*;

verus! {

/// Which font family text is set in.
#[derive(Debug, Clone)]
pub enum FontFamily {
    SansSerif,
    Serif,
    Monospace,
    Named(String),
}

#[derive(Debug, Clone, Copy, PartialEq, Eq, Structural)]
pub enum FontStyle {
    Normal,
    Italic,
}

/// How the pixels of a rasterized glyph are to be read.
#[derive(Debug, Clone, Copy, PartialEq, Eq, Structural)]
pub enum GlyphContentType {
    /// One coverage byte per pixel.
    Mask,
    /// Four colour bytes per pixel.
    Color,
}

/// A glyph image with its placement relative to the pen position.
pub struct RasterizedGlyph {
    pub width: u32,
    pub height: u32,
    pub left: i32,
    pub top: i32,
    pub data: Vec<u8>,
    pub content_type: GlyphContentType,
}

impl RasterizedGlyph {
    pub fn is_color(&self) -> (r: bool)
        ensures
            r == (self.content_type == GlyphContentType::Color),
    {
        self.content_type == GlyphContentType::Color
    }
}

} // verus!
