//! The drag-and-drop state machine: idle, pending after a press, active once the pointer
//! has moved far enough and a value to drag was produced.

use vstd::prelude::*;

use crate::node_id::NodeId;

verus! {

#[derive(Debug, Clone, Copy, PartialEq, Eq, Structural)]
pub enum DragPhaseUi {
    Idle,
    Pending,
    Active,
}

/// What a finished drag hands over: where it came from, the dragged value and where it
/// was dropped.
pub struct DragFinish<P, V> {
    pub source_node: Option<NodeId>,
    pub value: Option<V>,
    pub position: P,
}

/// The state of a drag; `P` is a pointer position, `V` the dragged value.
pub struct DragManager<P, V> {
    phase: DragPhaseUi,
    mousedown_pos: P,
    source_node: Option<NodeId>,
    drag_value: Option<V>,
    current_pos: P,
}

impl<P: Copy, V> DragManager<P, V> {
    pub closed spec fn phase_spec(&self) -> DragPhaseUi {
        self.phase
    }

    pub closed spec fn source_spec(&self) -> Option<NodeId> {
        self.source_node
    }

    pub closed spec fn value_spec(&self) -> Option<V> {
        self.drag_value
    }

    pub closed spec fn press_spec(&self) -> P {
        self.mousedown_pos
    }

    pub closed spec fn position_spec(&self) -> P {
        self.current_pos
    }

    /// An idle drag manager whose positions start at `origin`.
    pub fn new(origin: P) -> (r: Self)
        ensures
            r.phase_spec() == DragPhaseUi::Idle,
            r.source_spec() is None,
            r.value_spec() is None,
            r.press_spec() == origin,
            r.position_spec() == origin,
    {
        DragManager {
            phase: DragPhaseUi::Idle,
            mousedown_pos: origin,
            source_node: None,
            drag_value: None,
            current_pos: origin,
        }
    }

    pub fn phase(&self) -> (r: DragPhaseUi)
        ensures
            r == self.phase_spec(),
    {
        self.phase
    }

    pub fn source_node(&self) -> (r: Option<NodeId>)
        ensures
            r == self.source_spec(),
    {
        self.source_node
    }

    pub fn drag_value(&self) -> (r: Option<&V>)
        ensures
            r is Some <==> self.value_spec() is Some,
            r matches Some(v) ==> self.value_spec() == Some(*v),
    {
        self.drag_value.as_ref()
    }

    /// Where the press that may start a drag happened.
    pub fn mousedown_position(&self) -> (r: P)
        ensures
            r == self.press_spec(),
    {
        self.mousedown_pos
    }

    pub fn current_position(&self) -> (r: P)
        ensures
            r == self.position_spec(),
    {
        self.current_pos
    }

    /// A press on `node`: a drag may start from there.
    pub fn begin_pending(&mut self, node: NodeId, position: P)
        ensures
            final(self).phase_spec() == DragPhaseUi::Pending,
            final(self).press_spec() == position,
            final(self).position_spec() == position,
            final(self).source_spec() == Some(node),
            final(self).value_spec() == old(self).value_spec(),
    {
        self.phase = DragPhaseUi::Pending;
        self.mousedown_pos = position;
        self.source_node = Some(node);
        self.current_pos = position;
    }

    /// The pointer moved to `position`; `past_threshold` tells whether it is now far
    /// enough from the press. A pending drag then asks `value_factory` for the value to
    /// drag: it becomes active with one, and is cancelled without. Returns whether a drag
    /// is active.
    pub fn mouse_move<F: FnOnce() -> Option<V>>(
        &mut self,
        position: P,
        past_threshold: bool,
        value_factory: F,
    ) -> (r: bool)
        requires
            call_requires(value_factory, ()),
        ensures
            final(self).position_spec() == position,
            final(self).press_spec() == old(self).press_spec(),
            old(self).phase_spec() == DragPhaseUi::Idle ==> !r && final(self).phase_spec()
                == DragPhaseUi::Idle && final(self).source_spec() == old(self).source_spec()
                && final(self).value_spec() == old(self).value_spec(),
            old(self).phase_spec() == DragPhaseUi::Active ==> r && final(self).phase_spec()
                == DragPhaseUi::Active && final(self).source_spec() == old(self).source_spec()
                && final(self).value_spec() == old(self).value_spec(),
            old(self).phase_spec() == DragPhaseUi::Pending && !past_threshold ==> {
                &&& !r
                &&& final(self).phase_spec() == DragPhaseUi::Pending
                &&& final(self).source_spec() == old(self).source_spec()
                &&& final(self).value_spec() == old(self).value_spec()
            },
            old(self).phase_spec() == DragPhaseUi::Pending && past_threshold ==> exists|produced: Option<V>|
                {
                    &&& call_ensures(value_factory, (), produced)
                    &&& produced is Some ==> r && final(self).phase_spec() == DragPhaseUi::Active
                        && final(self).value_spec() == produced && final(self).source_spec()
                        == old(self).source_spec()
                    &&& produced is None ==> !r && final(self).phase_spec() == DragPhaseUi::Idle
                        && final(self).value_spec() is None && final(self).source_spec() is None
                },
    {
        self.current_pos = position;
        match self.phase {
            DragPhaseUi::Pending => {
                if past_threshold {
                    let produced = value_factory();
                    match produced {
                        Some(value) => {
                            self.phase = DragPhaseUi::Active;
                            self.drag_value = Some(value);
                            return true;
                        },
                        None => {
                            self.cancel();
                        },
                    }
                }
                false
            },
            DragPhaseUi::Active => true,
            DragPhaseUi::Idle => false,
        }
    }

    /// Ends the drag: an active one hands over its source, value and position; any other
    /// is cancelled. Either way the manager is idle afterwards.
    pub fn finish(&mut self) -> (r: Option<DragFinish<P, V>>)
        ensures
            final(self).phase_spec() == DragPhaseUi::Idle,
            final(self).source_spec() is None,
            final(self).value_spec() is None,
            final(self).position_spec() == old(self).position_spec(),
            final(self).press_spec() == old(self).press_spec(),
            old(self).phase_spec() != DragPhaseUi::Active ==> r is None,
            old(self).phase_spec() == DragPhaseUi::Active ==> (r matches Some(f) && f.source_node
                == old(self).source_spec() && f.value == old(self).value_spec() && f.position
                == old(self).position_spec()),
    {
        if self.phase != DragPhaseUi::Active {
            self.cancel();
            return None;
        }
        let value = self.drag_value.take();
        let result = DragFinish {
            source_node: self.source_node,
            value,
            position: self.current_pos,
        };
        self.reset();
        Some(result)
    }

    /// Abandons the drag.
    pub fn cancel(&mut self)
        ensures
            final(self).phase_spec() == DragPhaseUi::Idle,
            final(self).source_spec() is None,
            final(self).value_spec() is None,
            final(self).position_spec() == old(self).position_spec(),
            final(self).press_spec() == old(self).press_spec(),
    {
        self.reset();
    }

    fn reset(&mut self)
        ensures
            final(self).phase_spec() == DragPhaseUi::Idle,
            final(self).source_spec() is None,
            final(self).value_spec() is None,
            final(self).position_spec() == old(self).position_spec(),
            final(self).press_spec() == old(self).press_spec(),
    {
        self.phase = DragPhaseUi::Idle;
        self.source_node = None;
        self.drag_value = None;
    }
}

} // verus!
