//! Which node is being pressed.

use vstd::prelude::*;

use crate::node_id::NodeId;

verus! {

/// The node that is being pressed.
pub struct ActiveManager {
    current: Option<NodeId>,
}

impl ActiveManager {
    pub closed spec fn active_spec(&self) -> Option<NodeId> {
        self.current
    }

    pub fn new() -> (r: Self)
        ensures
            r.active_spec() is None,
    {
        ActiveManager { current: None }
    }

    pub fn active(&self) -> (r: Option<NodeId>)
        ensures
            r == self.active_spec(),
    {
        self.current
    }

    pub fn set_active(&mut self, node: Option<NodeId>)
        ensures
            final(self).active_spec() == node,
    {
        self.current = node;
    }

    pub fn clear(&mut self)
        ensures
            final(self).active_spec() is None,
    {
        self.current = None;
    }
}

impl Default for ActiveManager {
    fn default() -> (r: Self)
        ensures
            r.active_spec() is None,
    {
        Self::new()
    }
}

} // verus!
