//! Identifiers of nodes in the scene tree.

use vstd::prelude::*;

verus! {

/// A generational index naming a node of the scene tree.
#[derive(Debug, Clone, Copy, PartialEq, Eq, Structural, Hash)]
pub struct NodeId {
    pub index: u32,
    pub version: u32,
}

impl NodeId {
    pub fn from_raw_parts(index: u32, version: u32) -> (r: Self)
        ensures
            r.index == index,
            r.version == version,
    {
        NodeId { index, version }
    }
}

} // verus!
