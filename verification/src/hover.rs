//! Which node the pointer is over.

use vstd::prelude::*;

use crate::node_id::NodeId;

verus! {

/// The nodes the pointer entered and left in one update.
#[derive(Debug, PartialEq, Eq, Structural)]
pub struct HoverChange {
    pub entered: Option<NodeId>,
    pub exited: Option<NodeId>,
}

/// The change reported when the hover moves from `current` to `node`.
pub open spec fn hover_change(current: Option<NodeId>, node: Option<NodeId>) -> HoverChange {
    if current == node {
        HoverChange { entered: None, exited: None }
    } else {
        HoverChange { entered: node, exited: current }
    }
}

pub struct HoverManager {
    current: Option<NodeId>,
}

impl HoverManager {
    pub closed spec fn hovered_spec(&self) -> Option<NodeId> {
        self.current
    }

    pub fn new() -> (r: Self)
        ensures
            r.hovered_spec() is None,
    {
        HoverManager { current: None }
    }

    pub fn hovered(&self) -> (r: Option<NodeId>)
        ensures
            r == self.hovered_spec(),
    {
        self.current
    }

    /// Moves the hover to `node`, reporting what was entered and left (nothing when the
    /// hover does not change).
    pub fn set_hovered(&mut self, node: Option<NodeId>) -> (r: HoverChange)
        ensures
            final(self).hovered_spec() == node,
            r == hover_change(old(self).hovered_spec(), node),
    {
        if self.current == node {
            return HoverChange { entered: None, exited: None };
        }
        let exited = self.current;
        let entered = node;
        self.current = node;
        HoverChange { entered, exited }
    }
}

impl Default for HoverManager {
    fn default() -> (r: Self)
        ensures
            r.hovered_spec() is None,
    {
        Self::new()
    }
}

/// Moving the hover to where it already is reports nothing, so hovering the same node
/// twice reports a change at most once.
pub proof fn lemma_hover_twice(current: Option<NodeId>, node: Option<NodeId>)
    ensures
        hover_change(node, node) == (HoverChange { entered: None, exited: None }),
        hover_change(current, node).entered is Some ==> hover_change(current, node).entered
            == node,
{
}

/// Moving the hover to another node reports entering that node and leaving the one
/// hovered before; staying reports nothing.
pub proof fn lemma_hover_change_reports_move(current: Option<NodeId>, node: Option<NodeId>)
    ensures
        current != node ==> hover_change(current, node).entered == node && hover_change(
            current,
            node,
        ).exited == current,
        current == node ==> hover_change(current, node).entered is None && hover_change(
            current,
            node,
        ).exited is None,
{
}

} // verus!
