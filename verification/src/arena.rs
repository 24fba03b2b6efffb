//! A per-frame bump arena for strings and slices handed to the renderer.

use vstd::prelude::*;

verus! {

#[verifier::external_type_specification]
#[verifier::external_body]
pub struct ExBump<const MIN_ALIGN: usize>(bumpalo::Bump<MIN_ALIGN>);

/// `bumpalo::Bump::new`: an empty arena. Nothing about it is stated.
#[verifier::external_body]
fn bump_new() -> bumpalo::Bump {
    bumpalo::Bump::new()
}

/// `bumpalo::Bump::reset`: frees everything allocated in the arena. Nothing about it is
/// stated.
#[verifier::external_body]
fn bump_reset(bump: &mut bumpalo::Bump) {
    bump.reset()
}

/// `bumpalo::Bump::alloc_str`: copies the string into the arena and returns the copy,
/// which holds the same characters.
#[verifier::external_body]
fn bump_alloc_str<'a>(bump: &'a bumpalo::Bump, s: &str) -> (r: &'a str)
    ensures
        r@ == s@,
{
    bump.alloc_str(s)
}

/// `bumpalo::Bump::alloc_slice_copy`: copies the slice into the arena and returns the
/// copy, which holds the same elements.
#[verifier::external_body]
fn bump_alloc_slice<'a, T: Copy>(bump: &'a bumpalo::Bump, s: &[T]) -> (r: &'a [T])
    ensures
        r@ == s@,
{
    bump.alloc_slice_copy(s)
}

/// `bumpalo::Bump::allocated_bytes`: the bytes allocated across all of the arena's
/// chunks; it depends on how the arena sized its chunks, so nothing about it is stated.
#[verifier::external_body]
fn bump_allocated_bytes(bump: &bumpalo::Bump) -> usize {
    bump.allocated_bytes()
}

/// Scratch memory for one frame, freed all at once.
pub struct RenderArena {
    bump: bumpalo::Bump,
}

impl RenderArena {
    /// An empty arena. Its allocation state lives in bumpalo's cells, which allocation
    /// through `&self` changes, so no claim about it is made.
    pub fn new() -> Self {
        RenderArena { bump: bump_new() }
    }

    /// Frees everything allocated since the last reset.
    pub fn reset(&mut self) {
        bump_reset(&mut self.bump)
    }

    /// A copy of `s` that lives as long as the arena is not reset.
    pub fn alloc_str(&self, s: &str) -> (r: &str)
        ensures
            r@ == s@,
    {
        bump_alloc_str(&self.bump, s)
    }

    /// A copy of `slice` that lives as long as the arena is not reset.
    pub fn alloc_slice<T: Copy>(&self, slice: &[T]) -> (r: &[T])
        ensures
            r@ == slice@,
    {
        bump_alloc_slice(&self.bump, slice)
    }

    /// The bytes the arena's chunks hold. The count changes when `alloc_str` or
    /// `alloc_slice` is called through a shared reference and depends on how bumpalo
    /// sizes its chunks, so nothing about it is stated.
    pub fn bytes_allocated(&self) -> usize {
        bump_allocated_bytes(&self.bump)
    }
}

impl Default for RenderArena {
    fn default() -> Self {
        Self::new()
    }
}

} // verus!
