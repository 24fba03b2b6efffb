//! Plain data of the element kinds: image sources, per-element layout states, keyed
//! elements and scroll axes.

use vstd::prelude::*;

verus! {

/// Where an image element gets its pixels.
pub enum ImageSource {
    Path(String),
    Bytes(Vec<u8>),
    Url(String),
}

/// Layout state of a canvas element (it keeps none).
#[derive(Default)]
pub struct CanvasState;

/// Layout state of an image element (it keeps none).
#[derive(Default)]
pub struct ImgState;

/// Layout state of an SVG element (it keeps none).
#[derive(Default)]
pub struct SvgState;

/// Layout state of an input element (it keeps none).
#[derive(Default)]
pub struct InputState;

/// An element with a key, so that it keeps its node when its siblings change.
pub struct Keyed<E> {
    pub(crate) inner: E,
    pub(crate) key: u64,
}

impl<E> Keyed<E> {
    pub closed spec fn inner_spec(&self) -> E {
        self.inner
    }

    pub closed spec fn key_spec(&self) -> u64 {
        self.key
    }

    pub fn new(inner: E, key: u64) -> (r: Self)
        ensures
            r.inner_spec() == inner,
            r.key_spec() == key,
    {
        Keyed { inner, key }
    }

    pub fn key(&self) -> (r: u64)
        ensures
            r == self.key_spec(),
    {
        self.key
    }

    pub fn into_inner(self) -> (r: E)
        ensures
            r == self.inner_spec(),
    {
        self.inner
    }
}

/// The directions a scroll container scrolls in.
#[derive(Debug, Clone, Copy, PartialEq, Eq, Structural)]
pub enum ScrollAxis {
    Vertical,
    Horizontal,
    Both,
}

/// The axis of a container that scrolls horizontally and/or vertically (vertical when
/// neither is set).
pub open spec fn axis_of(scrollable_x: bool, scrollable_y: bool) -> ScrollAxis {
    if scrollable_x && scrollable_y {
        ScrollAxis::Both
    } else if scrollable_x {
        ScrollAxis::Horizontal
    } else {
        ScrollAxis::Vertical
    }
}

/// Whether a container with this axis scrolls sideways.
pub open spec fn scrolls_horizontally(axis: ScrollAxis) -> bool {
    axis is Horizontal || axis is Both
}

/// Whether a container with this axis scrolls up and down.
pub open spec fn scrolls_vertically(axis: ScrollAxis) -> bool {
    axis is Vertical || axis is Both
}

/// A container scrolls sideways exactly when it is horizontally scrollable, and up and
/// down exactly when it is vertically scrollable or not horizontally scrollable (the
/// vertical default).
pub proof fn lemma_axis_follows_flags(scrollable_x: bool, scrollable_y: bool)
    ensures
        scrolls_horizontally(axis_of(scrollable_x, scrollable_y)) == scrollable_x,
        scrolls_vertically(axis_of(scrollable_x, scrollable_y)) == (scrollable_y || !scrollable_x),
{
}

pub fn scroll_axis_for(scrollable_x: bool, scrollable_y: bool) -> (r: ScrollAxis)
    ensures
        r == axis_of(scrollable_x, scrollable_y),
        scrolls_horizontally(r) == scrollable_x,
        scrolls_vertically(r) == (scrollable_y || !scrollable_x),
{
    match (scrollable_x, scrollable_y) {
        (true, true) => ScrollAxis::Both,
        (true, false) => ScrollAxis::Horizontal,
        _ => ScrollAxis::Vertical,
    }
}

} // verus!
