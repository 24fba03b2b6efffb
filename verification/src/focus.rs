//! Keyboard focus: the focused node, the tab order and focus traps.

use vstd::prelude::*;

use crate::node_id::NodeId;

verus! {

/// The nodes that gained and lost focus in one update.
#[derive(Debug, PartialEq, Eq, Structural)]
pub struct FocusChange {
    pub gained: Option<NodeId>,
    pub lost: Option<NodeId>,
}

/// The change reported when focus is requested for `node` while `focused` has it.
pub open spec fn focus_change(focused: Option<NodeId>, node: NodeId) -> FocusChange {
    if focused == Some(node) {
        FocusChange { gained: None, lost: None }
    } else {
        FocusChange { gained: Some(node), lost: focused }
    }
}

/// Requesting focus for a node that does not have it reports that node gaining focus
/// and the previously focused node (if any) losing it; requesting it for the focused
/// node reports nothing.
pub proof fn lemma_focus_change_reports_move(focused: Option<NodeId>, node: NodeId)
    ensures
        focused != Some(node) ==> focus_change(focused, node).gained == Some(node) && focus_change(
            focused,
            node,
        ).lost == focused,
        focused == Some(node) ==> focus_change(focused, node).gained is None && focus_change(
            focused,
            node,
        ).lost is None,
{
}

struct TabStop {
    node: NodeId,
    tab_index: i32,
    insertion_order: usize,
}

/// A tab stop as `(node, tab index, insertion order)`.
pub type TabStopEntry = (NodeId, i32, usize);

/// Tab stops are ordered by tab index, then by insertion order.
pub open spec fn tab_before(a: TabStopEntry, b: TabStopEntry) -> bool {
    a.1 < b.1 || (a.1 == b.1 && a.2 < b.2)
}

pub open spec fn tab_sorted(s: Seq<TabStopEntry>) -> bool {
    forall|i: int, j: int| 0 <= i < j < s.len() ==> tab_before(s[i], s[j])
}

/// The first index at or after `i` whose tab index exceeds `tab_index`, or the length.
pub open spec fn first_after(s: Seq<TabStopEntry>, tab_index: i32, i: int) -> int
    decreases s.len() - i,
{
    if i < 0 || i >= s.len() {
        s.len() as int
    } else if s[i].1 > tab_index {
        i
    } else {
        first_after(s, tab_index, i + 1)
    }
}

/// `s` with `e` placed after every stop whose tab index is not greater than its own.
pub open spec fn tab_insert(s: Seq<TabStopEntry>, e: TabStopEntry) -> Seq<TabStopEntry> {
    s.insert(first_after(s, e.1, 0), e)
}

pub open spec fn tab_nodes(s: Seq<TabStopEntry>) -> Seq<NodeId> {
    s.map_values(|e: TabStopEntry| e.0)
}

/// The first index at or after `i` holding `id`.
pub open spec fn index_of_from(nodes: Seq<NodeId>, id: NodeId, i: int) -> Option<int>
    decreases nodes.len() - i,
{
    if i < 0 || i >= nodes.len() {
        None
    } else if nodes[i] == id {
        Some(i)
    } else {
        index_of_from(nodes, id, i + 1)
    }
}

/// The node after `current` in tab order, wrapping around; the first node when there is
/// no current node or it is not a tab stop.
pub open spec fn tab_next(nodes: Seq<NodeId>, current: Option<NodeId>) -> Option<NodeId> {
    if nodes.len() == 0 {
        None
    } else {
        match current {
            None => Some(nodes[0]),
            Some(id) => match index_of_from(nodes, id, 0) {
                Some(i) => Some(nodes[(i + 1) % (nodes.len() as int)]),
                None => Some(nodes[0]),
            },
        }
    }
}

/// The node before `current` in tab order, wrapping around; the last node when there is
/// no current node or it is not a tab stop.
pub open spec fn tab_prev(nodes: Seq<NodeId>, current: Option<NodeId>) -> Option<NodeId> {
    if nodes.len() == 0 {
        None
    } else {
        match current {
            None => Some(nodes.last()),
            Some(id) => match index_of_from(nodes, id, 0) {
                Some(i) => if i == 0 {
                    Some(nodes.last())
                } else {
                    Some(nodes[i - 1])
                },
                None => Some(nodes.last()),
            },
        }
    }
}

proof fn lemma_index_of_from(nodes: Seq<NodeId>, id: NodeId, i: int)
    requires
        0 <= i <= nodes.len(),
        forall|j: int| 0 <= j < i ==> nodes[j] != id,
    ensures
        index_of_from(nodes, id, 0) == index_of_from(nodes, id, i),
    decreases i,
{
    if i > 0 {
        lemma_index_of_from(nodes, id, i - 1);
    }
}

/// In a tab order without repeated nodes, the node at position `i` is found there.
proof fn lemma_index_of_distinct(nodes: Seq<NodeId>, i: int)
    requires
        0 <= i < nodes.len(),
        forall|a: int, b: int| 0 <= a < b < nodes.len() ==> nodes[a] != nodes[b],
    ensures
        index_of_from(nodes, nodes[i], 0) == Some(i),
{
    lemma_index_of_from(nodes, nodes[i], i);
}

/// Tabbing forward and backward undo each other: in a tab order without repeated nodes,
/// going back from a stop and then forward returns to it, and so does going forward and
/// then back. Going back from any stop but the first reaches the one just before it, and
/// from the first the last one.
pub proof fn lemma_tab_prev_next_inverse(nodes: Seq<NodeId>, i: int)
    requires
        0 <= i < nodes.len(),
        forall|a: int, b: int| 0 <= a < b < nodes.len() ==> nodes[a] != nodes[b],
    ensures
        i > 0 ==> tab_prev(nodes, Some(nodes[i])) == Some(nodes[i - 1]),
        i == 0 ==> tab_prev(nodes, Some(nodes[i])) == Some(nodes[nodes.len() - 1]),
        i + 1 < nodes.len() ==> tab_next(nodes, Some(nodes[i])) == Some(nodes[i + 1]),
        i + 1 == nodes.len() ==> tab_next(nodes, Some(nodes[i])) == Some(nodes[0]),
        tab_next(nodes, tab_prev(nodes, Some(nodes[i]))) == Some(nodes[i]),
        tab_prev(nodes, tab_next(nodes, Some(nodes[i]))) == Some(nodes[i]),
{
    let n = nodes.len() as int;
    lemma_index_of_distinct(nodes, i);
    let p = if i == 0 { n - 1 } else { i - 1 };
    let q = if i + 1 == n { 0 } else { i + 1 };
    lemma_index_of_distinct(nodes, p);
    lemma_index_of_distinct(nodes, q);
    if i + 1 < n {
        vstd::arithmetic::div_mod::lemma_small_mod((i + 1) as nat, n as nat);
    } else {
        vstd::arithmetic::div_mod::lemma_mod_self_0(n);
    }
    if i > 0 {
        vstd::arithmetic::div_mod::lemma_small_mod((p + 1) as nat, n as nat);
    } else {
        vstd::arithmetic::div_mod::lemma_mod_self_0(n);
    }
    assert((i + 1) % n == q);
    assert((p + 1) % n == i);
    assert(nodes.last() == nodes[n - 1]);
}

proof fn lemma_index_of_found(nodes: Seq<NodeId>, id: NodeId, i: int)
    requires
        0 <= i <= nodes.len(),
    ensures
        index_of_from(nodes, id, i) matches Some(k) ==> i <= k < nodes.len() && nodes[k] == id,
    decreases nodes.len() - i,
{
    if i < nodes.len() {
        lemma_index_of_found(nodes, id, i + 1);
    }
}

/// The tab order: stops sorted by tab index, ties broken by insertion order.
pub struct TabStopMap {
    stops: Vec<TabStop>,
    counter: usize,
}

impl TabStopMap {
    /// The stops in tab order.
    pub closed spec fn entries(&self) -> Seq<TabStopEntry> {
        self.stops@.map_values(|t: TabStop| (t.node, t.tab_index, t.insertion_order))
    }

    /// The insertion order the next stop will get.
    pub closed spec fn next_order(&self) -> usize {
        self.counter
    }

    /// The stops are in tab order and older than the next insertion.
    pub open spec fn wf(&self) -> bool {
        &&& tab_sorted(self.entries())
        &&& forall|i: int| 0 <= i < self.entries().len() ==> #[trigger] self.entries()[i].2 < self.next_order()
    }

    pub fn new() -> (r: Self)
        ensures
            r.entries() == Seq::<TabStopEntry>::empty(),
            r.next_order() == 0,
            r.wf(),
    {
        let r = TabStopMap { stops: Vec::new(), counter: 0 };
        assert(r.entries() =~= Seq::<TabStopEntry>::empty());
        r
    }

    pub fn clear(&mut self)
        ensures
            final(self).entries() == Seq::<TabStopEntry>::empty(),
            final(self).next_order() == 0,
            final(self).wf(),
    {
        self.stops.clear();
        self.counter = 0;
        assert(self.entries() =~= Seq::<TabStopEntry>::empty());
    }

    /// How many stops have been inserted since the map was made or cleared.
    pub fn insertion_count(&self) -> (r: usize)
        ensures
            r == self.next_order(),
    {
        self.counter
    }

    /// Adds `node` as a tab stop with `tab_index`, after the stops with the same index.
    pub fn insert(&mut self, node: NodeId, tab_index: i32)
        requires
            old(self).next_order() < usize::MAX,
        ensures
            final(self).entries() == tab_insert(
                old(self).entries(),
                (node, tab_index, old(self).next_order()),
            ),
            final(self).next_order() == old(self).next_order() + 1,
            old(self).wf() ==> final(self).wf(),
    {
        let ghost s = self.entries();
        let mut k: usize = 0;
        let len = self.stops.len();
        while k < len && self.stops[k].tab_index <= tab_index
            invariant
                k <= len,
                len == self.stops@.len(),
                s == self.entries(),
                first_after(s, tab_index, 0) == first_after(s, tab_index, k as int),
                forall|j: int| 0 <= j < k ==> s[j].1 <= tab_index,
            decreases len - k,
        {
            assert(s[k as int].1 == self.stops@[k as int].tab_index);
            k += 1;
        }
        proof {
            if k < len {
                assert(s[k as int].1 == self.stops@[k as int].tab_index);
            }
        }
        let order = self.counter;
        self.stops.insert(k, TabStop { node, tab_index, insertion_order: order });
        self.counter = order + 1;
        proof {
            let e = (node, tab_index, order);
            assert(self.entries() =~= s.insert(k as int, e));
            let f = self.entries();
            if tab_sorted(s) && (forall|i: int| 0 <= i < s.len() ==> #[trigger] s[i].2 < order) {
                assert forall|i: int, j: int| 0 <= i < j < f.len() implies tab_before(f[i], f[j]) by {
                    if i < k && j == k {
                        assert(s[i].1 <= tab_index);
                    } else if i < k && j > k {
                        assert(f[j] == s[j - 1]);
                    } else if i == k {
                        assert(f[j] == s[j - 1]);
                        assert(s[k as int].1 > tab_index);
                        if j - 1 > k {
                            assert(tab_before(s[k as int], s[j - 1]));
                        }
                    } else if i > k {
                        assert(f[i] == s[i - 1] && f[j] == s[j - 1]);
                    }
                }
                assert forall|i: int| 0 <= i < f.len() implies #[trigger] f[i].2 < self.counter by {
                    if i > k {
                        assert(f[i] == s[i - 1]);
                    }
                }
            }
        }
    }

    /// The position of `id` among the stops, if it is one.
    fn position(&self, id: NodeId) -> (r: Option<usize>)
        ensures
            r == (match index_of_from(tab_nodes(self.entries()), id, 0) {
                Some(i) => Some(i as usize),
                None => None::<usize>,
            }),
            r matches Some(i) ==> i < self.entries().len(),
    {
        let ghost nodes = tab_nodes(self.entries());
        let len = self.stops.len();
        let mut i: usize = 0;
        while i < len
            invariant
                i <= len,
                len == self.stops@.len(),
                nodes == tab_nodes(self.entries()),
                forall|j: int| 0 <= j < i ==> nodes[j] != id,
            decreases len - i,
        {
            assert(nodes[i as int] == self.stops@[i as int].node);
            if self.stops[i].node == id {
                proof {
                    lemma_index_of_from(nodes, id, i as int);
                }
                return Some(i);
            }
            i += 1;
        }
        proof {
            lemma_index_of_from(nodes, id, i as int);
        }
        None
    }

    /// The stop after `current` in tab order, wrapping around.
    pub fn next(&self, current: Option<NodeId>) -> (r: Option<NodeId>)
        ensures
            r == tab_next(tab_nodes(self.entries()), current),
    {
        let len = self.stops.len();
        let ghost nodes = tab_nodes(self.entries());
        assert(nodes.len() == len);
        assert(forall|k: int| 0 <= k < len ==> nodes[k] == #[trigger] self.stops@[k].node);
        if len == 0 {
            return None;
        }
        match current {
            None => Some(self.stops[0].node),
            Some(id) => {
                let pos = self.position(id);
                proof {
                    lemma_index_of_found(nodes, id, 0);
                }
                match pos {
                    Some(i) => {
                        let j = (i + 1) % len;
                        assert(j as int == (i as int + 1) % (nodes.len() as int));
                        Some(self.stops[j].node)
                    },
                    None => Some(self.stops[0].node),
                }
            },
        }
    }

    /// The stop before `current` in tab order, wrapping around.
    pub fn prev(&self, current: Option<NodeId>) -> (r: Option<NodeId>)
        ensures
            r == tab_prev(tab_nodes(self.entries()), current),
    {
        let len = self.stops.len();
        let ghost nodes = tab_nodes(self.entries());
        assert(nodes.len() == len);
        assert(forall|k: int| 0 <= k < len ==> nodes[k] == #[trigger] self.stops@[k].node);
        if len == 0 {
            return None;
        }
        match current {
            None => Some(self.stops[len - 1].node),
            Some(id) => {
                let pos = self.position(id);
                proof {
                    lemma_index_of_found(nodes, id, 0);
                }
                match pos {
                    Some(0) => Some(self.stops[len - 1].node),
                    Some(i) => Some(self.stops[i - 1].node),
                    None => Some(self.stops[len - 1].node),
                }
            },
        }
    }

    /// The stops' nodes in tab order.
    pub fn nodes(&self) -> (r: Vec<NodeId>)
        ensures
            r@ == tab_nodes(self.entries()),
    {
        let mut r: Vec<NodeId> = Vec::new();
        let len = self.stops.len();
        for i in 0..len
            invariant
                len == self.stops@.len(),
                r@ == tab_nodes(self.entries()).subrange(0, i as int),
        {
            r.push(self.stops[i].node);
            assert(r@ =~= tab_nodes(self.entries()).subrange(0, i + 1));
        }
        assert(r@ =~= tab_nodes(self.entries()));
        r
    }

    pub fn is_empty(&self) -> (r: bool)
        ensures
            r == (self.entries().len() == 0),
    {
        self.stops.len() == 0
    }
}

impl Default for TabStopMap {
    fn default() -> (r: Self)
        ensures
            r.entries() == Seq::<TabStopEntry>::empty(),
            r.next_order() == 0,
            r.wf(),
    {
        Self::new()
    }
}

/// The tab stops a trap's nodes form: each node, in order, with its position as tab index.
pub open spec fn trap_entries(trap: Seq<NodeId>, n: nat) -> Seq<TabStopEntry>
    decreases n,
{
    if n == 0 {
        Seq::empty()
    } else {
        let i = (n - 1) as int;
        tab_insert(trap_entries(trap, (n - 1) as nat), (trap[i], i as i32, i as usize))
    }
}

/// A trap of fewer than 2^31 nodes tabs through its nodes in the order given.
pub proof fn lemma_trap_order(trap: Seq<NodeId>, n: nat)
    requires
        n <= trap.len(),
        n <= 0x8000_0000,
    ensures
        trap_entries(trap, n).len() == n,
        forall|k: int|
            0 <= k < n ==> #[trigger] trap_entries(trap, n)[k] == (trap[k], k as i32, k as usize),
        tab_nodes(trap_entries(trap, n)) == trap.subrange(0, n as int),
    decreases n,
{
    if n > 0 {
        let m = (n - 1) as nat;
        lemma_trap_order(trap, m);
        let s = trap_entries(trap, m);
        let i = m as int;
        assert forall|k: int| 0 <= k < s.len() implies #[trigger] s[k].1 <= i as i32 by {}
        lemma_first_after_none(s, i as i32, 0);
        assert(trap_entries(trap, n) =~= s.push((trap[i], i as i32, i as usize)));
    }
    assert(tab_nodes(trap_entries(trap, n)) =~= trap.subrange(0, n as int));
}

proof fn lemma_first_after_none(s: Seq<TabStopEntry>, t: i32, j: int)
    requires
        0 <= j <= s.len(),
        forall|k: int| 0 <= k < s.len() ==> #[trigger] s[k].1 <= t,
    ensures
        first_after(s, t, j) == s.len(),
    decreases s.len() - j,
{
    if j < s.len() {
        lemma_first_after_none(s, t, j + 1);
    }
}

/// Tracks the focused node, the tab order and a stack of focus traps.
pub struct FocusManager {
    focused: Option<NodeId>,
    tab_stops: TabStopMap,
    traps: Vec<Vec<NodeId>>,
}

impl FocusManager {
    pub closed spec fn focused_spec(&self) -> Option<NodeId> {
        self.focused
    }

    pub closed spec fn stops(&self) -> TabStopMap {
        self.tab_stops
    }

    /// The focus traps, innermost last.
    pub closed spec fn traps_spec(&self) -> Seq<Seq<NodeId>> {
        self.traps@.map_values(|t: Vec<NodeId>| t@)
    }

    /// The order in which tabbing visits nodes: the innermost trap's, or else the tab stops'.
    pub open spec fn tab_order(&self) -> Seq<NodeId> {
        if self.traps_spec().len() > 0 {
            let trap = self.traps_spec().last();
            tab_nodes(trap_entries(trap, trap.len()))
        } else {
            tab_nodes(self.stops().entries())
        }
    }

    pub fn new() -> (r: Self)
        ensures
            r.focused_spec() is None,
            r.stops().entries() == Seq::<TabStopEntry>::empty(),
            r.stops().next_order() == 0,
            r.traps_spec() == Seq::<Seq<NodeId>>::empty(),
    {
        let r = FocusManager { focused: None, tab_stops: TabStopMap::new(), traps: Vec::new() };
        assert(r.traps_spec() =~= Seq::<Seq<NodeId>>::empty());
        r
    }

    pub fn focused(&self) -> (r: Option<NodeId>)
        ensures
            r == self.focused_spec(),
    {
        self.focused
    }

    /// Focuses `node`, reporting the node that gained focus and the one that lost it
    /// (neither when `node` already had focus).
    pub fn request_focus(&mut self, node: NodeId) -> (r: FocusChange)
        ensures
            final(self).focused_spec() == Some(node),
            final(self).stops() == old(self).stops(),
            final(self).traps_spec() == old(self).traps_spec(),
            r == focus_change(old(self).focused_spec(), node),
    {
        let changed = match self.focused {
            Some(f) => f != node,
            None => true,
        };
        let lost = if changed {
            self.focused
        } else {
            None
        };
        let gained = if changed {
            Some(node)
        } else {
            None
        };
        self.focused = Some(node);
        FocusChange { gained, lost }
    }

    pub fn clear_focus(&mut self) -> (r: FocusChange)
        ensures
            final(self).focused_spec() is None,
            final(self).stops() == old(self).stops(),
            final(self).traps_spec() == old(self).traps_spec(),
            r.gained is None,
            r.lost == old(self).focused_spec(),
    {
        let lost = self.focused;
        self.focused = None;
        FocusChange { gained: None, lost }
    }

    pub fn tab_stops(&self) -> (r: &TabStopMap)
        ensures
            *r == self.stops(),
    {
        &self.tab_stops
    }

    pub fn tab_stops_mut(&mut self) -> (r: &mut TabStopMap)
        ensures
            *r == old(self).stops(),
            final(self).stops() == *final(r),
            final(self).focused_spec() == old(self).focused_spec(),
            final(self).traps_spec() == old(self).traps_spec(),
    {
        &mut self.tab_stops
    }

    /// Confines tabbing to `nodes` until the trap is popped.
    pub fn push_trap(&mut self, nodes: Vec<NodeId>)
        ensures
            final(self).traps_spec() == old(self).traps_spec().push(nodes@),
            final(self).focused_spec() == old(self).focused_spec(),
            final(self).stops() == old(self).stops(),
    {
        let ghost n = nodes@;
        self.traps.push(nodes);
        assert(self.traps_spec() =~= old(self).traps_spec().push(n));
    }

    pub fn pop_trap(&mut self)
        ensures
            old(self).traps_spec().len() == 0 ==> final(self).traps_spec() == old(self).traps_spec(),
            old(self).traps_spec().len() > 0 ==> final(self).traps_spec() == old(
                self,
            ).traps_spec().drop_last(),
            final(self).focused_spec() == old(self).focused_spec(),
            final(self).stops() == old(self).stops(),
    {
        let _ = self.traps.pop();
        assert(old(self).traps_spec().len() > 0 ==> self.traps_spec() =~= old(
            self,
        ).traps_spec().drop_last());
    }

    /// The tab stops of the innermost trap, as a tab order.
    fn trap_map(trap: &Vec<NodeId>) -> (r: TabStopMap)
        ensures
            r.entries() == trap_entries(trap@, trap@.len()),
    {
        let mut map = TabStopMap::new();
        let len = trap.len();
        for i in 0..len
            invariant
                len == trap@.len(),
                map.entries() == trap_entries(trap@, i as nat),
                map.next_order() == i,
        {
            map.insert(trap[i], i as i32);
        }
        map
    }

    /// The node tabbing forward would focus.
    pub fn next_focus(&self) -> (r: Option<NodeId>)
        ensures
            r == tab_next(self.tab_order(), self.focused_spec()),
    {
        let n = self.traps.len();
        if n > 0 {
            let map = Self::trap_map(&self.traps[n - 1]);
            return map.next(self.focused);
        }
        self.tab_stops.next(self.focused)
    }

    /// The node tabbing backward would focus.
    pub fn prev_focus(&self) -> (r: Option<NodeId>)
        ensures
            r == tab_prev(self.tab_order(), self.focused_spec()),
    {
        let n = self.traps.len();
        if n > 0 {
            let map = Self::trap_map(&self.traps[n - 1]);
            return map.prev(self.focused);
        }
        self.tab_stops.prev(self.focused)
    }
}

impl Default for FocusManager {
    fn default() -> (r: Self)
        ensures
            r.focused_spec() is None,
            r.stops().entries() == Seq::<TabStopEntry>::empty(),
            r.traps_spec() == Seq::<Seq<NodeId>>::empty(),
    {
        Self::new()
    }
}

} // verus!
