//! The interaction coordinator: hover, press, focus, cursor and drag state driven by
//! input events over the dispatch tree. Each handler decides what changes and reports
//! what the caller has to do (which handlers to fire, whether to redraw).

use vstd::prelude::*;

use crate::active::ActiveManager;
use crate::cursor::{cursor_update, inherited_cursor, CursorManager};
use crate::dispatch::{
    chain_at, chain_ends, chain_seq, is_chain_length, DispatchNode, DispatchNodeData,
    DispatchTree,
};
use crate::drag::{DragManager, DragPhaseUi};
use crate::element_kinds::{axis_of, scroll_axis_for, ScrollAxis};
use crate::event_result::EventResult;
use crate::focus::{focus_change, tab_insert, tab_next, tab_prev, FocusChange, FocusManager};
use crate::hover::{hover_change, HoverChange, HoverManager};
use crate::key::Keystroke;
use crate::keymap::{last_applying, Keymap};
use crate::node_id::NodeId;
use crate::style::CursorStyle;

verus! {

/// No focus change.
pub open spec fn no_focus_change() -> FocusChange {
    FocusChange { gained: None, lost: None }
}

/// No hover change.
pub open spec fn no_hover_change() -> HoverChange {
    HoverChange { entered: None, exited: None }
}

/// The key contexts set on the nodes of `path`, in order.
pub open spec fn key_contexts<H>(m: Map<NodeId, DispatchNode<H>>, path: Seq<NodeId>) -> Seq<
    Seq<char>,
>
    decreases path.len(),
{
    if path.len() == 0 {
        Seq::empty()
    } else {
        let rest = key_contexts(m, path.drop_last());
        let n = path.last();
        if m.contains_key(n) && m[n].data.key_context is Some {
            rest.push(m[n].data.key_context->0@)
        } else {
            rest
        }
    }
}

/// `ancestor` is a proper ancestor of `node`.
pub open spec fn is_proper_ancestor<H>(
    m: Map<NodeId, DispatchNode<H>>,
    ancestor: NodeId,
    node: NodeId,
) -> bool {
    exists|k: nat| k >= 1 && #[trigger] chain_at(m, node, k) == Some(ancestor)
}

/// The count a click on `node` gets after the last click `(time, node, count)`: one more
/// than that click's when it was on the same node within the double-click time, else 1.
pub open spec fn click_count_after<T>(
    last: (Option<T>, Option<NodeId>, u32),
    node: NodeId,
    within_double_click: bool,
) -> int {
    if last.0 is Some && last.1 == Some(node) && within_double_click {
        last.2 + 1
    } else {
        1
    }
}

/// Click counting: a click continues the count of the last click only when it lands on
/// the same node within the double-click time; a click on another node, a late click,
/// or a first click starts over at 1.
pub proof fn lemma_click_counting<T>(
    last: (Option<T>, Option<NodeId>, u32),
    node: NodeId,
    within_double_click: bool,
)
    ensures
        last.1 != Some(node) ==> click_count_after(last, node, within_double_click) == 1,
        !within_double_click ==> click_count_after(last, node, within_double_click) == 1,
        last.0 is None ==> click_count_after(last, node, within_double_click) == 1,
        last.0 is Some && last.1 == Some(node) && within_double_click ==> click_count_after(
            last,
            node,
            within_double_click,
        ) == last.2 + 1,
{
}

/// Routes input events to the interaction state; `H` are the nodes' handlers, `P`
/// pointer positions, `V` dragged values, `A` key-bound actions and `T` instants.
pub struct UiCoordinator<H, P, V, A, T> {
    dispatch: DispatchTree<H>,
    hover: HoverManager,
    active: ActiveManager,
    focus: FocusManager,
    cursor: CursorManager,
    drag: DragManager<P, V>,
    keymap: Keymap<A>,
    last_mousedown_pos: Option<P>,
    last_mousedown_node: Option<NodeId>,
    last_click_time: Option<T>,
    last_click_node: Option<NodeId>,
    click_count: u32,
    scroll_nodes: Vec<NodeId>,
}

impl<H, P: Copy, V, A, T> UiCoordinator<H, P, V, A, T> {
    pub closed spec fn dispatch_spec(&self) -> DispatchTree<H> {
        self.dispatch
    }

    pub closed spec fn hover_spec(&self) -> HoverManager {
        self.hover
    }

    pub closed spec fn active_spec(&self) -> ActiveManager {
        self.active
    }

    pub closed spec fn focus_spec(&self) -> FocusManager {
        self.focus
    }

    pub closed spec fn cursor_spec(&self) -> CursorManager {
        self.cursor
    }

    pub closed spec fn drag_spec(&self) -> DragManager<P, V> {
        self.drag
    }

    pub closed spec fn keymap_spec(&self) -> Keymap<A> {
        self.keymap
    }

    pub closed spec fn press_spec(&self) -> (Option<P>, Option<NodeId>) {
        (self.last_mousedown_pos, self.last_mousedown_node)
    }

    pub closed spec fn click_spec(&self) -> (Option<T>, Option<NodeId>, u32) {
        (self.last_click_time, self.last_click_node, self.click_count)
    }

    /// The nodes that own a scroll state.
    pub closed spec fn scrollers(&self) -> Set<NodeId> {
        Set::new(|n: NodeId| self.scroll_nodes@.contains(n))
    }

    /// The dispatch tree's nodes.
    pub open spec fn nodes(&self) -> Map<NodeId, DispatchNode<H>> {
        self.dispatch_spec().map()
    }

    pub fn new(origin: P) -> (r: Self)
        ensures
            r.nodes() == Map::<NodeId, DispatchNode<H>>::empty(),
            r.hover_spec().hovered_spec() is None,
            r.active_spec().active_spec() is None,
            r.focus_spec().focused_spec() is None,
            r.focus_spec().stops().next_order() == 0,
            r.focus_spec().traps_spec().len() == 0,
            r.cursor_spec().shown() == CursorStyle::Default,
            r.drag_spec().phase_spec() == DragPhaseUi::Idle,
            r.press_spec() == (None::<P>, None::<NodeId>),
            r.click_spec() == (None::<T>, None::<NodeId>, 0u32),
            r.scrollers() == Set::<NodeId>::empty(),
    {
        let r = UiCoordinator {
            dispatch: DispatchTree::new(),
            hover: HoverManager::new(),
            active: ActiveManager::new(),
            focus: FocusManager::new(),
            cursor: CursorManager::new(),
            drag: DragManager::new(origin),
            keymap: Keymap::new(),
            last_mousedown_pos: None,
            last_mousedown_node: None,
            last_click_time: None,
            last_click_node: None,
            click_count: 0,
            scroll_nodes: Vec::new(),
        };
        assert(r.scrollers() =~= Set::<NodeId>::empty());
        r
    }

    pub fn dispatch_tree(&self) -> (r: &DispatchTree<H>)
        ensures
            *r == self.dispatch_spec(),
    {
        &self.dispatch
    }

    pub fn focus_manager(&self) -> (r: &FocusManager)
        ensures
            *r == self.focus_spec(),
    {
        &self.focus
    }

    pub fn focus_manager_mut(&mut self) -> (r: &mut FocusManager)
        ensures
            *r == old(self).focus_spec(),
            final(self).focus_spec() == *final(r),
            final(self).dispatch_spec() == old(self).dispatch_spec(),
            final(self).scrollers() == old(self).scrollers(),
            final(self).hover_spec() == old(self).hover_spec(),
            final(self).active_spec() == old(self).active_spec(),
    {
        &mut self.focus
    }

    pub fn hover_manager(&self) -> (r: &HoverManager)
        ensures
            *r == self.hover_spec(),
    {
        &self.hover
    }

    pub fn active_manager(&self) -> (r: &ActiveManager)
        ensures
            *r == self.active_spec(),
    {
        &self.active
    }

    pub fn drag_manager(&self) -> (r: &DragManager<P, V>)
        ensures
            *r == self.drag_spec(),
    {
        &self.drag
    }

    pub fn keymap(&self) -> (r: &Keymap<A>)
        ensures
            *r == self.keymap_spec(),
    {
        &self.keymap
    }

    pub fn keymap_mut(&mut self) -> (r: &mut Keymap<A>)
        ensures
            *r == old(self).keymap_spec(),
            final(self).keymap_spec() == *final(r),
            final(self).dispatch_spec() == old(self).dispatch_spec(),
            final(self).scrollers() == old(self).scrollers(),
            final(self).focus_spec() == old(self).focus_spec(),
    {
        &mut self.keymap
    }

    pub fn hovered_node(&self) -> (r: Option<NodeId>)
        ensures
            r == self.hover_spec().hovered_spec(),
    {
        self.hover.hovered()
    }

    pub fn active_node(&self) -> (r: Option<NodeId>)
        ensures
            r == self.active_spec().active_spec(),
    {
        self.active.active()
    }

    pub fn focused_node(&self) -> (r: Option<NodeId>)
        ensures
            r == self.focus_spec().focused_spec(),
    {
        self.focus.focused()
    }

    /// Where the last press that has not been released happened.
    pub fn last_mousedown_position(&self) -> (r: Option<P>)
        ensures
            r == self.press_spec().0,
    {
        self.last_mousedown_pos
    }

    /// When the last click was synthesized.
    pub fn last_click_time(&self) -> (r: Option<&T>)
        ensures
            r is Some <==> self.click_spec().0 is Some,
            r matches Some(t) ==> self.click_spec().0 == Some(*t),
    {
        self.last_click_time.as_ref()
    }

    /// Forgets the dispatch tree before it is rebuilt.
    pub fn rebuild_dispatch(&mut self)
        ensures
            final(self).nodes() == Map::<NodeId, DispatchNode<H>>::empty(),
            final(self).scrollers() == old(self).scrollers(),
            final(self).focus_spec() == old(self).focus_spec(),
            final(self).hover_spec() == old(self).hover_spec(),
            final(self).active_spec() == old(self).active_spec(),
    {
        self.dispatch.clear();
    }

    /// Registers a node; a focusable one becomes a tab stop. A node that scrolls keeps
    /// its scroll state; where it has none yet, its scroll axis is returned so that one
    /// is made.
    pub fn register_node(&mut self, node: NodeId, parent: Option<NodeId>, data: DispatchNodeData<H>) -> (r:
        Option<ScrollAxis>)
        requires
            old(self).focus_spec().stops().next_order() < usize::MAX,
        ensures
            final(self).nodes() == old(self).nodes().insert(node, DispatchNode { parent, data }),
            r == (if (data.scrollable_x || data.scrollable_y) && !old(self).scrollers().contains(node) {
                Some(axis_of(data.scrollable_x, data.scrollable_y))
            } else {
                None
            }),
            final(self).scrollers() == (if data.scrollable_x || data.scrollable_y {
                old(self).scrollers().insert(node)
            } else {
                old(self).scrollers()
            }),
            data.focusable ==> final(self).focus_spec().stops().entries() == tab_insert(
                old(self).focus_spec().stops().entries(),
                (
                    node,
                    match data.tab_index {
                        Some(i) => i,
                        None => 0i32,
                    },
                    old(self).focus_spec().stops().next_order(),
                ),
            ),
            !data.focusable ==> final(self).focus_spec().stops() == old(self).focus_spec().stops(),
            final(self).focus_spec().focused_spec() == old(self).focus_spec().focused_spec(),
            final(self).focus_spec().traps_spec() == old(self).focus_spec().traps_spec(),
            final(self).hover_spec() == old(self).hover_spec(),
            final(self).active_spec() == old(self).active_spec(),
    {
        let axis = if (data.scrollable_x || data.scrollable_y) && !self.has_scroll_state(node) {
            let ghost before = self.scroll_nodes@;
            self.scroll_nodes.push(node);
            proof {
                assert forall|n: NodeId| self.scroll_nodes@.contains(n) <==> before.contains(n) || n == node by {
                    if before.contains(n) {
                        let i = choose|i: int| 0 <= i < before.len() && before[i] == n;
                        assert(self.scroll_nodes@[i] == n);
                    }
                    if self.scroll_nodes@.contains(n) && n != node {
                        let i = choose|i: int| 0 <= i < self.scroll_nodes@.len() && self.scroll_nodes@[i] == n;
                        assert(before[i] == n);
                    }
                    assert(self.scroll_nodes@[before.len() as int] == node);
                }
                assert(self.scrollers() =~= old(self).scrollers().insert(node));
            }
            Some(scroll_axis_for(data.scrollable_x, data.scrollable_y))
        } else {
            None
        };
        if data.focusable {
            let tab_index = match data.tab_index {
                Some(i) => i,
                None => 0,
            };
            self.focus.tab_stops_mut().insert(node, tab_index);
        }
        self.dispatch.register(node, parent, data);
        axis
    }

    /// Whether `node` owns a scroll state.
    pub fn has_scroll_state(&self, node: NodeId) -> (r: bool)
        ensures
            r == self.scrollers().contains(node),
    {
        let n = self.scroll_nodes.len();
        for i in 0..n
            invariant
                n == self.scroll_nodes@.len(),
                forall|j: int| 0 <= j < i ==> self.scroll_nodes@[j] != node,
        {
            if self.scroll_nodes[i] == node {
                return true;
            }
        }
        false
    }

    /// Drops the scroll states of nodes that are no longer in the dispatch tree.
    pub fn prune_scroll_states(&mut self)
        ensures
            final(self).scrollers() == old(self).scrollers().filter(
                |n: NodeId| old(self).nodes().contains_key(n),
            ),
            final(self).dispatch_spec() == old(self).dispatch_spec(),
            final(self).focus_spec() == old(self).focus_spec(),
            final(self).hover_spec() == old(self).hover_spec(),
            final(self).active_spec() == old(self).active_spec(),
            final(self).cursor_spec() == old(self).cursor_spec(),
            final(self).drag_spec() == old(self).drag_spec(),
            final(self).keymap_spec() == old(self).keymap_spec(),
            final(self).press_spec() == old(self).press_spec(),
            final(self).click_spec() == old(self).click_spec(),
    {
        let ghost m = self.nodes();
        let ghost old_nodes = self.scroll_nodes@;
        let mut kept: Vec<NodeId> = Vec::new();
        let n = self.scroll_nodes.len();
        for i in 0..n
            invariant
                n == old_nodes.len(),
                self.scroll_nodes@ == old_nodes,
                m == self.nodes(),
                forall|x: NodeId| #[trigger] kept@.contains(x) <==> (exists|j: int|
                    0 <= j < i && old_nodes[j] == x) && m.contains_key(x),
        {
            let node = self.scroll_nodes[i];
            let ghost before = kept@;
            if self.dispatch.get(node).is_some() {
                kept.push(node);
            }
            proof {
                assert forall|x: NodeId| #[trigger] kept@.contains(x) <==> (exists|j: int|
                    0 <= j < i + 1 && old_nodes[j] == x) && m.contains_key(x) by {
                    if kept@.contains(x) {
                        let k = choose|k: int| 0 <= k < kept@.len() && kept@[k] == x;
                        if k < before.len() {
                            assert(before[k] == x);
                            assert(before.contains(x));
                        }
                    }
                    if (exists|j: int| 0 <= j < i + 1 && old_nodes[j] == x) && m.contains_key(x) {
                        let j = choose|j: int| 0 <= j < i + 1 && old_nodes[j] == x;
                        if j < i {
                            assert(before.contains(x));
                            let k = choose|k: int| 0 <= k < before.len() && before[k] == x;
                            assert(kept@[k] == x);
                        } else {
                            assert(kept@[kept@.len() - 1] == x);
                        }
                    }
                }
            }
        }
        self.scroll_nodes = kept;
        proof {
            assert forall|x: NodeId| self.scrollers().contains(x) <==> old(self).scrollers().filter(
                |n: NodeId| m.contains_key(n),
            ).contains(x) by {
                if old_nodes.contains(x) {
                    let j = choose|j: int| 0 <= j < old_nodes.len() && old_nodes[j] == x;
                    assert(0 <= j < n && old_nodes[j] == x);
                }
            }
            assert(self.scrollers() =~= old(self).scrollers().filter(|n: NodeId| m.contains_key(n)));
        }
    }

    /// The node whose scroll state a scroll over `target` moves: the first node on the
    /// way from `target` up to the root that owns one.
    pub fn scroll_target(&self, target: NodeId) -> (r: Option<NodeId>)
        requires
            chain_ends(self.nodes(), target),
        ensures
            r matches Some(n) ==> exists|k: nat|
                #[trigger] chain_at(self.nodes(), target, k) == Some(n) && self.scrollers().contains(n)
                    && forall|l: nat| l < k ==> !(#[trigger] chain_at(self.nodes(), target, l) matches Some(x)
                        && self.scrollers().contains(x)),
            r is None ==> forall|l: nat| !(#[trigger] chain_at(self.nodes(), target, l) matches Some(x)
                && self.scrollers().contains(x)),
    {
        let ghost m = self.nodes();
        let ghost k_end = choose|k: nat| #[trigger] chain_at(m, target, k) is None;
        let ghost mut k: nat = 0;
        let mut current: Option<NodeId> = Some(target);
        while current.is_some()
            invariant
                m == self.nodes(),
                chain_at(m, target, k_end) is None,
                current == chain_at(m, target, k),
                k <= k_end,
                forall|l: nat| l < k ==> !(#[trigger] chain_at(m, target, l) matches Some(x)
                    && self.scrollers().contains(x)),
            decreases k_end - k,
        {
            let node = current.unwrap();
            if self.has_scroll_state(node) {
                return Some(node);
            }
            current = self.dispatch.parent(node);
            proof {
                if k + 1 > k_end {
                    crate::dispatch::lemma_chain_stays_ended(m, target, k_end, k);
                }
                k = k + 1;
            }
        }
        proof {
            assert forall|l: nat| !(#[trigger] chain_at(m, target, l) matches Some(x)
                && self.scrollers().contains(x)) by {
                if l >= k {
                    crate::dispatch::lemma_chain_stays_ended(m, target, k, l);
                }
            }
        }
        None
    }
}

impl<H, P: Copy, V, A, T> UiCoordinator<H, P, V, A, T> {
    /// The pointer moved over `target` (`past_threshold`: far enough from the press to
    /// start a drag). During a drag the grabbing cursor is shown; otherwise the hover and
    /// cursor follow the pointer. Returns the result and the hover change to report.
    pub fn handle_mouse_move(&mut self, target: Option<NodeId>, position: P, past_threshold: bool) -> (r: (
        EventResult,
        HoverChange,
    ))
        requires
            target matches Some(t) ==> chain_ends(old(self).nodes(), t),
        ensures
            final(self).nodes() == old(self).nodes(),
            final(self).scrollers() == old(self).scrollers(),
            final(self).focus_spec() == old(self).focus_spec(),
            final(self).active_spec() == old(self).active_spec(),
            old(self).drag_spec().phase_spec() != DragPhaseUi::Idle
                ==> final(self).drag_spec().position_spec() == position,
            old(self).drag_spec().phase_spec() == DragPhaseUi::Idle ==> final(self).drag_spec()
                == old(self).drag_spec(),
            old(self).drag_spec().phase_spec() == DragPhaseUi::Active ==> {
                &&& r.0.needs_redraw
                &&& r.0.cursor_changed == Some(CursorStyle::Grabbing)
                &&& r.1 == no_hover_change()
                &&& final(self).hover_spec() == old(self).hover_spec()
                &&& final(self).cursor_spec() == old(self).cursor_spec()
                &&& final(self).drag_spec().phase_spec() == DragPhaseUi::Active
            },
            old(self).drag_spec().phase_spec() != DragPhaseUi::Active ==> {
                let change = hover_change(old(self).hover_spec().hovered_spec(), target);
                let wanted = match target {
                    Some(t) => inherited_cursor(old(self).nodes(), t),
                    None => None,
                };
                &&& old(self).drag_spec().phase_spec() == DragPhaseUi::Pending && past_threshold
                    ==> final(self).drag_spec().phase_spec() == DragPhaseUi::Idle
                &&& !(old(self).drag_spec().phase_spec() == DragPhaseUi::Pending && past_threshold)
                    ==> final(self).drag_spec().phase_spec() == old(self).drag_spec().phase_spec()
                &&& r.1 == change
                &&& final(self).hover_spec().hovered_spec() == target
                &&& r.0.needs_redraw == (change != no_hover_change())
                &&& (final(self).cursor_spec().shown(), r.0.cursor_changed) == (match target {
                    Some(t) => cursor_update(old(self).cursor_spec().shown(), wanted),
                    None => cursor_update(old(self).cursor_spec().shown(), None),
                })
            },
    {
        let phase = self.drag.phase();
        if phase == DragPhaseUi::Pending || phase == DragPhaseUi::Active {
            let no_value = || -> (v: Option<V>)
                ensures
                    v is None,
                { None };
            let activated = self.drag.mouse_move(position, past_threshold, no_value);
            if activated || self.drag.phase() == DragPhaseUi::Active {
                return (
                    EventResult { needs_redraw: true, cursor_changed: Some(CursorStyle::Grabbing) },
                    HoverChange { entered: None, exited: None },
                );
            }
        }
        let change = self.hover.set_hovered(target);
        let needs_redraw = change.entered.is_some() || change.exited.is_some();
        let cursor_changed = match target {
            Some(node) => self.cursor.resolve(node, &self.dispatch),
            None => self.cursor.reset(),
        };
        (EventResult { needs_redraw, cursor_changed }, change)
    }
}

impl<H, P: Copy, V, A, T> UiCoordinator<H, P, V, A, T> {
    /// Whether `ancestor` is a proper ancestor of `descendant`.
    pub fn is_ancestor(&self, ancestor: NodeId, descendant: NodeId) -> (r: bool)
        requires
            chain_ends(self.nodes(), descendant),
        ensures
            r == is_proper_ancestor(self.nodes(), ancestor, descendant),
    {
        let ancestors = self.dispatch.ancestors(descendant);
        let ghost m = self.nodes();
        let ghost len = (ancestors@.len() + 1) as nat;
        let n = ancestors.len();
        for i in 0..n
            invariant
                n == ancestors@.len(),
                m == self.nodes(),
                len == n + 1,
                is_chain_length(m, descendant, len),
                ancestors@ == chain_seq(m, descendant, len).drop_first(),
                forall|j: int| 0 <= j < i ==> ancestors@[j] != ancestor,
        {
            if ancestors[i] == ancestor {
                proof {
                    assert(chain_at(m, descendant, (i + 1) as nat) == Some(ancestor));
                }
                return true;
            }
        }
        proof {
            assert forall|k: nat| k >= 1 implies #[trigger] chain_at(m, descendant, k) != Some(
                ancestor,
            ) by {
                if k < len {
                    assert(chain_at(m, descendant, k) == Some(ancestors@[k - 1]));
                } else {
                    crate::dispatch::lemma_chain_stays_ended(m, descendant, len, k);
                }
            }
        }
        false
    }

    /// Counts a click on `target` at `now`; `within_double_click` tells whether `now` is
    /// close enough to the previous click to continue it. Returns the click count.
    fn synthesize_click(&mut self, target: NodeId, now: T, within_double_click: bool) -> (r: u32)
        requires
            old(self).click_spec().2 < u32::MAX,
        ensures
            r == click_count_after(old(self).click_spec(), target, within_double_click),
            final(self).click_spec() == (Some(now), Some(target), r),
            final(self).nodes() == old(self).nodes(),
            final(self).scrollers() == old(self).scrollers(),
            final(self).focus_spec() == old(self).focus_spec(),
            final(self).hover_spec() == old(self).hover_spec(),
            final(self).active_spec() == old(self).active_spec(),
            final(self).drag_spec() == old(self).drag_spec(),
            final(self).cursor_spec() == old(self).cursor_spec(),
            final(self).press_spec() == old(self).press_spec(),
    {
        let continues = match (&self.last_click_time, self.last_click_node) {
            (Some(_), Some(node)) => node == target && within_double_click,
            _ => false,
        };
        if continues {
            self.click_count = self.click_count + 1;
        } else {
            self.click_count = 1;
        }
        self.last_click_time = Some(now);
        self.last_click_node = Some(target);
        self.click_count
    }

    /// A press on `target` (`has_drag_handler`: it can be dragged). The target becomes the
    /// pressed node, takes focus when focusable, and may start a drag. Returns the result
    /// and the focus change to report.
    pub fn handle_mouse_down(&mut self, target: NodeId, position: P, has_drag_handler: bool) -> (r: (
        EventResult,
        FocusChange,
    ))
        ensures
            r.0.needs_redraw && r.0.cursor_changed is None,
            final(self).active_spec().active_spec() == Some(target),
            final(self).press_spec() == (Some(position), Some(target)),
            final(self).nodes() == old(self).nodes(),
            final(self).scrollers() == old(self).scrollers(),
            final(self).hover_spec() == old(self).hover_spec(),
            final(self).cursor_spec() == old(self).cursor_spec(),
            final(self).click_spec() == old(self).click_spec(),
            final(self).focus_spec().stops() == old(self).focus_spec().stops(),
            final(self).focus_spec().traps_spec() == old(self).focus_spec().traps_spec(),
            old(self).nodes().contains_key(target) && old(self).nodes()[target].data.focusable ==> {
                &&& r.1 == focus_change(old(self).focus_spec().focused_spec(), target)
                &&& final(self).focus_spec().focused_spec() == Some(target)
            },
            !(old(self).nodes().contains_key(target) && old(self).nodes()[target].data.focusable)
                ==> {
                &&& r.1 == no_focus_change()
                &&& final(self).focus_spec() == old(self).focus_spec()
            },
            has_drag_handler ==> {
                &&& final(self).drag_spec().phase_spec() == DragPhaseUi::Pending
                &&& final(self).drag_spec().source_spec() == Some(target)
                &&& final(self).drag_spec().press_spec() == position
            },
            !has_drag_handler ==> final(self).drag_spec() == old(self).drag_spec(),
    {
        self.active.set_active(Some(target));
        self.last_mousedown_pos = Some(position);
        self.last_mousedown_node = Some(target);
        let focusable = match self.dispatch.get(target) {
            Some(data) => data.focusable,
            None => false,
        };
        let change = if focusable {
            self.focus.request_focus(target)
        } else {
            FocusChange { gained: None, lost: None }
        };
        if has_drag_handler {
            self.drag.begin_pending(target, position);
        }
        (EventResult::redraw(), change)
    }

    /// The pointer was released over `target`. An active drag ends (its value is
    /// dropped); otherwise a pending drag is cancelled and, when the release is over the
    /// pressed node or one of its descendants and `within_click_distance` of the press, a
    /// click on the pressed node is synthesized at `now`. Returns the result and the click
    /// with its count.
    pub fn handle_mouse_up(
        &mut self,
        target: Option<NodeId>,
        within_click_distance: bool,
        now: T,
        within_double_click: bool,
    ) -> (r: (EventResult, Option<(NodeId, u32)>))
        requires
            target matches Some(t) ==> chain_ends(old(self).nodes(), t),
            old(self).click_spec().2 < u32::MAX,
        ensures
            final(self).active_spec().active_spec() is None,
            final(self).nodes() == old(self).nodes(),
            final(self).scrollers() == old(self).scrollers(),
            final(self).focus_spec() == old(self).focus_spec(),
            final(self).hover_spec() == old(self).hover_spec(),
            final(self).drag_spec().phase_spec() == DragPhaseUi::Idle,
            old(self).drag_spec().phase_spec() == DragPhaseUi::Active ==> {
                &&& r.0.needs_redraw
                &&& r.0.cursor_changed == Some(CursorStyle::Default)
                &&& r.1 is None
                &&& final(self).press_spec() == old(self).press_spec()
            },
            old(self).drag_spec().phase_spec() != DragPhaseUi::Active ==> {
                let clicks = match (old(self).press_spec(), target) {
                    ((Some(_), Some(down)), Some(up)) => (down == up || is_proper_ancestor(
                        old(self).nodes(),
                        down,
                        up,
                    )) && within_click_distance,
                    _ => false,
                };
                &&& r.0.needs_redraw && r.0.cursor_changed is None
                &&& final(self).press_spec() == (None::<P>, None::<NodeId>)
                &&& clicks ==> (r.1 matches Some((n, c)) && n == old(self).press_spec().1->0
                    && c == click_count_after(old(self).click_spec(), n, within_double_click)
                    && final(self).click_spec() == (Some(now), Some(n), c))
                &&& !clicks ==> r.1 is None && final(self).click_spec() == old(self).click_spec()
            },
    {
        self.active.clear();
        if self.drag.phase() == DragPhaseUi::Active {
            let _finish = self.drag.finish();
            return (EventResult { needs_redraw: true, cursor_changed: Some(CursorStyle::Default) }, None);
        }
        self.drag.cancel();
        let mut click: Option<(NodeId, u32)> = None;
        if let Some(down_node) = self.last_mousedown_node {
            if let Some(up_node) = target {
                let same_target = down_node == up_node || self.is_ancestor(down_node, up_node);
                if same_target && self.last_mousedown_pos.is_some() && within_click_distance {
                    let count = self.synthesize_click(down_node, now, within_double_click);
                    click = Some((down_node, count));
                }
            }
        }
        self.last_mousedown_pos = None;
        self.last_mousedown_node = None;
        (EventResult::redraw(), click)
    }

    /// Tab (backward with `shift`): moves focus along the tab order. Returns the result
    /// and the focus change to report.
    pub fn handle_tab(&mut self, shift: bool) -> (r: (EventResult, FocusChange))
        ensures
            ({
                let order = old(self).focus_spec().tab_order();
                let focused = old(self).focus_spec().focused_spec();
                let next = if shift {
                    tab_prev(order, focused)
                } else {
                    tab_next(order, focused)
                };
                &&& next matches Some(n) ==> {
                    &&& r.0.needs_redraw && r.0.cursor_changed is None
                    &&& r.1 == focus_change(focused, n)
                    &&& final(self).focus_spec().focused_spec() == Some(n)
                }
                &&& next is None ==> !r.0.needs_redraw && r.0.cursor_changed is None && r.1
                    == no_focus_change() && final(self).focus_spec().focused_spec() == focused
            }),
            final(self).focus_spec().stops() == old(self).focus_spec().stops(),
            final(self).focus_spec().traps_spec() == old(self).focus_spec().traps_spec(),
            final(self).nodes() == old(self).nodes(),
            final(self).scrollers() == old(self).scrollers(),
            final(self).hover_spec() == old(self).hover_spec(),
            final(self).active_spec() == old(self).active_spec(),
    {
        let next = if shift {
            self.focus.prev_focus()
        } else {
            self.focus.next_focus()
        };
        match next {
            Some(node) => {
                let change = self.focus.request_focus(node);
                (EventResult::redraw(), change)
            },
            None => (EventResult::none(), FocusChange { gained: None, lost: None }),
        }
    }

    /// An assistive technology asks to focus `target`.
    pub fn handle_accessibility_focus(&mut self, target: NodeId) -> (r: (EventResult, FocusChange))
        ensures
            r.0.cursor_changed is None,
            final(self).nodes() == old(self).nodes(),
            final(self).scrollers() == old(self).scrollers(),
            final(self).hover_spec() == old(self).hover_spec(),
            final(self).focus_spec().stops() == old(self).focus_spec().stops(),
            !old(self).nodes().contains_key(target) ==> !r.0.needs_redraw && r.1
                == no_focus_change() && final(self).focus_spec() == old(self).focus_spec(),
            old(self).nodes().contains_key(target) ==> {
                &&& r.1 == focus_change(old(self).focus_spec().focused_spec(), target)
                &&& r.0.needs_redraw == (r.1 != no_focus_change())
                &&& final(self).focus_spec().focused_spec() == Some(target)
            },
    {
        if self.dispatch.get(target).is_none() {
            return (EventResult::none(), FocusChange { gained: None, lost: None });
        }
        let change = self.focus.request_focus(target);
        if change.gained.is_none() && change.lost.is_none() {
            return (EventResult::none(), change);
        }
        (EventResult::redraw(), change)
    }

    /// An assistive technology asks to take focus away from `target`.
    pub fn handle_accessibility_blur(&mut self, target: NodeId) -> (r: (EventResult, FocusChange))
        ensures
            r.0.cursor_changed is None,
            final(self).nodes() == old(self).nodes(),
            final(self).scrollers() == old(self).scrollers(),
            final(self).focus_spec().stops() == old(self).focus_spec().stops(),
            old(self).focus_spec().focused_spec() != Some(target) ==> !r.0.needs_redraw && r.1
                == no_focus_change() && final(self).focus_spec() == old(self).focus_spec(),
            old(self).focus_spec().focused_spec() == Some(target) ==> {
                &&& r.0.needs_redraw
                &&& r.1 == (FocusChange { gained: None, lost: Some(target) })
                &&& final(self).focus_spec().focused_spec() is None
            },
    {
        match self.focus.focused() {
            Some(f) => {
                if f != target {
                    return (EventResult::none(), FocusChange { gained: None, lost: None });
                }
            },
            None => {
                return (EventResult::none(), FocusChange { gained: None, lost: None });
            },
        }
        let change = self.focus.clear_focus();
        (EventResult::redraw(), change)
    }

    /// An assistive technology activates `target`: it takes focus when focusable and is
    /// clicked at `now`. Returns the result, the focus change and the click count.
    pub fn handle_accessibility_click(&mut self, target: NodeId, now: T, within_double_click: bool) -> (r: (
        EventResult,
        FocusChange,
        Option<u32>,
    ))
        requires
            old(self).click_spec().2 < u32::MAX,
        ensures
            r.0.cursor_changed is None,
            final(self).nodes() == old(self).nodes(),
            final(self).scrollers() == old(self).scrollers(),
            final(self).focus_spec().stops() == old(self).focus_spec().stops(),
            !old(self).nodes().contains_key(target) ==> !r.0.needs_redraw && r.1
                == no_focus_change() && r.2 is None && final(self).focus_spec() == old(
                self,
            ).focus_spec() && final(self).click_spec() == old(self).click_spec(),
            old(self).nodes().contains_key(target) ==> {
                &&& r.0.needs_redraw
                &&& old(self).nodes()[target].data.focusable ==> r.1 == focus_change(
                    old(self).focus_spec().focused_spec(),
                    target,
                ) && final(self).focus_spec().focused_spec() == Some(target)
                &&& !old(self).nodes()[target].data.focusable ==> r.1 == no_focus_change()
                    && final(self).focus_spec() == old(self).focus_spec()
                &&& r.2 matches Some(c) && c == click_count_after(
                    old(self).click_spec(),
                    target,
                    within_double_click,
                ) && final(self).click_spec() == (Some(now), Some(target), c)
            },
    {
        let focusable = match self.dispatch.get(target) {
            Some(data) => data.focusable,
            None => {
                return (EventResult::none(), FocusChange { gained: None, lost: None }, None);
            },
        };
        let change = if focusable {
            self.focus.request_focus(target)
        } else {
            FocusChange { gained: None, lost: None }
        };
        let count = self.synthesize_click(target, now, within_double_click);
        (EventResult::redraw(), change, Some(count))
    }

    /// Forgets focus, hover and press on nodes that are no longer in the dispatch tree.
    pub fn prune_interaction_state(&mut self)
        ensures
            final(self).nodes() == old(self).nodes(),
            final(self).scrollers() == old(self).scrollers(),
            final(self).focus_spec().stops() == old(self).focus_spec().stops(),
            final(self).focus_spec().focused_spec() == (match old(self).focus_spec().focused_spec() {
                Some(n) => if old(self).nodes().contains_key(n) {
                    Some(n)
                } else {
                    None
                },
                None => None,
            }),
            final(self).hover_spec().hovered_spec() == (match old(self).hover_spec().hovered_spec() {
                Some(n) => if old(self).nodes().contains_key(n) {
                    Some(n)
                } else {
                    None
                },
                None => None,
            }),
            final(self).active_spec().active_spec() == (match old(self).active_spec().active_spec() {
                Some(n) => if old(self).nodes().contains_key(n) {
                    Some(n)
                } else {
                    None
                },
                None => None,
            }),
    {
        if let Some(node) = self.focus.focused() {
            if self.dispatch.get(node).is_none() {
                let _ = self.focus.clear_focus();
            }
        }
        if let Some(node) = self.hover.hovered() {
            if self.dispatch.get(node).is_none() {
                let _ = self.hover.set_hovered(None);
            }
        }
        if let Some(node) = self.active.active() {
            if self.dispatch.get(node).is_none() {
                self.active.clear();
            }
        }
    }

    /// The key contexts from `node` up to the root, nearest first.
    pub fn collect_key_contexts(&self, node: NodeId) -> (r: Vec<String>)
        requires
            chain_ends(self.nodes(), node),
        ensures
            ({
                let len = r@.len();
                exists|n: nat|
                    #![trigger chain_seq(self.nodes(), node, n)]
                    is_chain_length(self.nodes(), node, n) && r@.map_values(|s: String| s@)
                        == key_contexts(self.nodes(), chain_seq(self.nodes(), node, n))
            }),
    {
        let path = self.dispatch.bubble_path(node);
        let ghost m = self.nodes();
        let mut contexts: Vec<String> = Vec::new();
        let n = path.len();
        for i in 0..n
            invariant
                n == path@.len(),
                m == self.nodes(),
                contexts@.map_values(|s: String| s@) == key_contexts(m, path@.take(i as int)),
        {
            proof {
                assert(path@.take(i + 1).drop_last() =~= path@.take(i as int));
                assert(path@.take(i + 1).last() == path@[i as int]);
            }
            let ghost before = contexts@;
            match self.dispatch.get(path[i]) {
                Some(data) => {
                    match &data.key_context {
                        Some(ctx) => {
                            contexts.push(ctx.clone());
                            proof {
                                assert(contexts@.map_values(|s: String| s@) =~= before.map_values(
                                    |s: String| s@,
                                ).push(ctx@));
                            }
                        },
                        None => {},
                    }
                },
                None => {},
            }
        }
        proof {
            assert(path@.take(n as int) =~= path@);
            assert(is_chain_length(m, node, n as nat));
        }
        contexts
    }

    /// Where a key press on the focused node goes: the action bound to `keystroke` in the
    /// focused node's key contexts, and the path from the focused node to the root along
    /// which the action, and then the key event, are offered. `None` without focus.
    pub fn handle_key_down(&self, keystroke: &Keystroke) -> (r: Option<(Option<&A>, Vec<NodeId>)>)
        requires
            self.focus_spec().focused_spec() matches Some(f) ==> chain_ends(self.nodes(), f),
        ensures
            self.focus_spec().focused_spec() is None ==> r is None,
            self.focus_spec().focused_spec() matches Some(f) ==> (r matches Some((_, path)) && is_chain_length(
                self.nodes(),
                f,
                path@.len() as nat,
            ) && path@ == chain_seq(self.nodes(), f, path@.len() as nat)),
            r matches Some((action, path)) ==> {
                let found = last_applying(
                    self.keymap_spec().bindings_spec(),
                    *keystroke,
                    key_contexts(self.nodes(), path@),
                    self.keymap_spec().bindings_spec().len() as int,
                );
                &&& action is None <==> found is None
                &&& action matches Some(a) ==> *a == self.keymap_spec().actions_spec()[found->0]
            },
    {
        let focused = match self.focus.focused() {
            Some(f) => f,
            None => {
                return None;
            },
        };
        let contexts = self.collect_key_contexts(focused);
        let action = self.keymap.match_keystroke(keystroke, contexts.as_slice());
        let path = self.dispatch.bubble_path(focused);
        proof {
            let m = self.nodes();
            let n = choose|n: nat|
                #![trigger chain_seq(m, focused, n)]
                is_chain_length(m, focused, n) && contexts@.map_values(|s: String| s@)
                    == key_contexts(m, chain_seq(m, focused, n));
            crate::dispatch::lemma_chain_length_unique(m, focused, n, path@.len() as nat);
        }
        Some((action, path))
    }
}

} // verus!
