//! Style keywords of the element model.

use vstd::prelude::*;

verus! {

#[derive(Debug, Clone, Copy, PartialEq, Eq, Structural)]
pub enum Display {
    Flex,
    Grid,
    Block,
    /// The element is not displayed (`display: none`).
    DisplayNone,
}

#[derive(Debug, Clone, Copy, PartialEq, Eq, Structural)]
pub enum Position {
    Relative,
    Absolute,
}

#[derive(Debug, Clone, Copy, PartialEq, Eq, Structural)]
pub enum FlexDirection {
    Row,
    Column,
    RowReverse,
    ColumnReverse,
}

#[derive(Debug, Clone, Copy, PartialEq, Eq, Structural)]
pub enum FlexWrap {
    NoWrap,
    Wrap,
    WrapReverse,
}

#[derive(Debug, Clone, Copy, PartialEq, Eq, Structural)]
pub enum AlignItems {
    Start,
    Center,
    End,
    Stretch,
    Baseline,
}

#[derive(Debug, Clone, Copy, PartialEq, Eq, Structural)]
pub enum JustifyContent {
    Start,
    Center,
    End,
    SpaceBetween,
    SpaceAround,
    SpaceEvenly,
}

#[derive(Debug, Clone, Copy, PartialEq, Eq, Structural)]
pub enum Overflow {
    Visible,
    Hidden,
    Scroll,
}

/// The mouse cursor shown over an element.
#[derive(Debug, Clone, Copy, PartialEq, Eq, Structural)]
pub enum CursorStyle {
    Default,
    Pointer,
    Text,
    Grab,
    Grabbing,
    NotAllowed,
    Move,
    Crosshair,
    Wait,
    Progress,
    Help,
    ZoomIn,
    ZoomOut,
    ResizeN,
    ResizeS,
    ResizeE,
    ResizeW,
    ResizeNE,
    ResizeNW,
    ResizeSE,
    ResizeSW,
    ResizeEW,
    ResizeNS,
}

#[derive(Debug, Clone, Copy, PartialEq, Eq, Structural)]
pub enum TextAlign {
    Left,
    Center,
    Right,
}

#[derive(Debug, Clone, Copy, PartialEq, Eq, Structural)]
pub enum FontWeight {
    Thin,
    Light,
    Normal,
    Medium,
    Semibold,
    Bold,
    Extrabold,
    Black,
}

/// The numeric weight (on the 100–900 scale) of a named weight.
pub open spec fn weight_value(w: FontWeight) -> u16 {
    match w {
        FontWeight::Thin => 100,
        FontWeight::Light => 300,
        FontWeight::Normal => 400,
        FontWeight::Medium => 500,
        FontWeight::Semibold => 600,
        FontWeight::Bold => 700,
        FontWeight::Extrabold => 800,
        FontWeight::Black => 900,
    }
}

impl FontWeight {
    pub fn to_u16(self) -> (r: u16)
        ensures
            r == weight_value(self),
    {
        match self {
            FontWeight::Thin => 100,
            FontWeight::Light => 300,
            FontWeight::Normal => 400,
            FontWeight::Medium => 500,
            FontWeight::Semibold => 600,
            FontWeight::Bold => 700,
            FontWeight::Extrabold => 800,
            FontWeight::Black => 900,
        }
    }
}

/// Heavier named weights have larger numeric weights.
pub proof fn lemma_weight_order()
    ensures
        weight_value(FontWeight::Thin) < weight_value(FontWeight::Light) < weight_value(
            FontWeight::Normal,
        ) < weight_value(FontWeight::Medium) < weight_value(FontWeight::Semibold) < weight_value(
            FontWeight::Bold,
        ) < weight_value(FontWeight::Extrabold) < weight_value(FontWeight::Black),
{
}

#[derive(Debug, Clone, Copy, PartialEq, Eq, Structural)]
pub enum TextOverflow {
    Wrap,
    NoWrap,
    Ellipsis,
}

#[derive(Debug, Clone, Copy, PartialEq, Eq, Structural)]
pub enum TextDecoration {
    /// No decoration line.
    DecorationNone,
    Underline,
    LineThrough,
}

#[derive(Debug, Clone, Copy, PartialEq, Eq, Structural)]
pub enum BorderStyle {
    Solid,
    Dashed,
}

#[derive(Debug, Clone, Copy, PartialEq, Eq, Structural)]
pub enum ObjectFit {
    Contain,
    Cover,
    Fill,
    /// The image keeps its intrinsic size.
    FitNone,
    ScaleDown,
}

} // verus!
