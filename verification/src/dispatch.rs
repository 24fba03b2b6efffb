//! The dispatch tree: for every node, its parent and what events and cursors it has.

use vstd::prelude::*;

use crate::node_id::NodeId;
use crate::style::CursorStyle;

verus! {

/// What the dispatcher knows of a node; `H` holds its event handlers.
pub struct DispatchNodeData<H> {
    pub handlers: H,
    pub cursor: Option<CursorStyle>,
    pub key_context: Option<String>,
    pub focusable: bool,
    pub tab_index: Option<i32>,
    pub scrollable_x: bool,
    pub scrollable_y: bool,
}

impl<H: Default> Default for DispatchNodeData<H> {
    fn default() -> (r: Self)
        ensures
            r.cursor is None,
            r.key_context is None,
            !r.focusable,
            r.tab_index is None,
            !r.scrollable_x,
            !r.scrollable_y,
    {
        DispatchNodeData {
            handlers: H::default(),
            cursor: None,
            key_context: None,
            focusable: false,
            tab_index: None,
            scrollable_x: false,
            scrollable_y: false,
        }
    }
}

/// A registered node: its parent and its data.
pub struct DispatchNode<H> {
    pub parent: Option<NodeId>,
    pub data: DispatchNodeData<H>,
}

/// The first index at or after `i` whose entry is for `key`.
pub open spec fn entry_index<V>(s: Seq<(NodeId, V)>, key: NodeId, i: int) -> Option<int>
    decreases s.len() - i,
{
    if i < 0 || i >= s.len() {
        None
    } else if s[i].0 == key {
        Some(i)
    } else {
        entry_index(s, key, i + 1)
    }
}

/// The parent of `n` in `m`, if `n` is registered and has one.
pub open spec fn parent_in<H>(m: Map<NodeId, DispatchNode<H>>, n: NodeId) -> Option<NodeId> {
    if m.contains_key(n) {
        m[n].parent
    } else {
        None
    }
}

/// `start` followed by its ancestors: the `k`-th element, if the chain is that long.
pub open spec fn chain_at<H>(m: Map<NodeId, DispatchNode<H>>, start: NodeId, k: nat) -> Option<
    NodeId,
>
    decreases k,
{
    if k == 0 {
        Some(start)
    } else {
        match chain_at(m, start, (k - 1) as nat) {
            Some(a) => parent_in(m, a),
            None => None,
        }
    }
}

/// The parent links from `start` end at a root (they do not run in a cycle).
pub open spec fn chain_ends<H>(m: Map<NodeId, DispatchNode<H>>, start: NodeId) -> bool {
    exists|k: nat| #[trigger] chain_at(m, start, k) is None
}

/// Once the chain has ended it stays ended.
pub proof fn lemma_chain_stays_ended<H>(m: Map<NodeId, DispatchNode<H>>, start: NodeId, j: nat, k: nat)
    requires
        j <= k,
        chain_at(m, start, j) is None,
    ensures
        chain_at(m, start, k) is None,
    decreases k - j,
{
    if j < k {
        lemma_chain_stays_ended(m, start, j, (k - 1) as nat);
    }
}

/// A chain has one length.
pub proof fn lemma_chain_length_unique<H>(m: Map<NodeId, DispatchNode<H>>, start: NodeId, a: nat, b: nat)
    requires
        is_chain_length(m, start, a),
        is_chain_length(m, start, b),
    ensures
        a == b,
{
    if a < b {
        assert(chain_at(m, start, a) is Some);
    } else if b < a {
        assert(chain_at(m, start, b) is Some);
    }
}

/// Walking from a node's parent is walking from the node, one step later.
pub proof fn lemma_chain_shift<H>(m: Map<NodeId, DispatchNode<H>>, start: NodeId, k: nat)
    ensures
        chain_at(m, start, k + 1) == match parent_in(m, start) {
            Some(p) => chain_at(m, p, k),
            None => None,
        },
    decreases k,
{
    if k > 0 {
        lemma_chain_shift(m, start, (k - 1) as nat);
        if parent_in(m, start) is None {
            assert(chain_at(m, start, k) is None);
        }
    }
}

/// The first `n` nodes of the chain from `start` (`start` and its ancestors).
pub open spec fn chain_seq<H>(m: Map<NodeId, DispatchNode<H>>, start: NodeId, n: nat) -> Seq<NodeId> {
    Seq::new(n, |i: int| chain_at(m, start, i as nat)->0)
}

/// The chain from `start` holds exactly `n` nodes.
pub open spec fn is_chain_length<H>(m: Map<NodeId, DispatchNode<H>>, start: NodeId, n: nat) -> bool {
    &&& chain_at(m, start, n) is None
    &&& forall|i: nat| i < n ==> #[trigger] chain_at(m, start, i) is Some
}

/// The map an entry list stands for: the first entry of each node counts.
pub open spec fn entries_map<V>(s: Seq<(NodeId, V)>) -> Map<NodeId, V> {
    Map::new(|k: NodeId| entry_index(s, k, 0) is Some, |k: NodeId| s[entry_index(s, k, 0)->0].1)
}

/// Overwriting the entry of a node changes its value in the map and nothing else.
proof fn lemma_entries_map_update<V>(s: Seq<(NodeId, V)>, node: NodeId, i: int, v: V)
    requires
        0 <= i < s.len(),
        entry_index(s, node, 0) == Some(i),
    ensures
        entries_map(s.update(i, (node, v))) == entries_map(s).insert(node, v),
{
    lemma_entry_index_set(s, node, i, v);
    let t = s.update(i, (node, v));
    assert forall|k: NodeId| #[trigger] entries_map(s).contains_key(k) && k != node implies
        entries_map(t)[k] == entries_map(s)[k] by {
        lemma_entry_index_found(s, k, 0);
        lemma_entry_index_found(s, node, 0);
        let j = entry_index(s, k, 0)->0;
        assert(j != i);
        assert(t[j] == s[j]);
    }
    assert(entries_map(t) =~= entries_map(s).insert(node, v));
}

/// The dispatch tree, keyed by node.
pub struct DispatchTree<H> {
    nodes: Vec<(NodeId, DispatchNode<H>)>,
}

impl<H> DispatchTree<H> {
    /// The registered nodes.
    pub closed spec fn map(&self) -> Map<NodeId, DispatchNode<H>> {
        entries_map(self.nodes@)
    }

    pub fn new() -> (r: Self)
        ensures
            r.map() == Map::<NodeId, DispatchNode<H>>::empty(),
    {
        let r = DispatchTree { nodes: Vec::new() };
        assert(r.map() =~= Map::<NodeId, DispatchNode<H>>::empty());
        r
    }

    pub fn clear(&mut self)
        ensures
            final(self).map() == Map::<NodeId, DispatchNode<H>>::empty(),
    {
        self.nodes.clear();
        assert(self.map() =~= Map::<NodeId, DispatchNode<H>>::empty());
    }

    /// The index of `node`'s entry.
    fn find(&self, node: NodeId) -> (r: Option<usize>)
        ensures
            r is None <==> entry_index(self.nodes@, node, 0) is None,
            r matches Some(i) ==> entry_index(self.nodes@, node, 0) == Some(i as int) && i
                < self.nodes@.len() && self.nodes@[i as int].0 == node,
    {
        let len = self.nodes.len();
        let mut i: usize = 0;
        while i < len
            invariant
                i <= len,
                len == self.nodes@.len(),
                entry_index(self.nodes@, node, 0) == entry_index(self.nodes@, node, i as int),
            decreases len - i,
        {
            if self.nodes[i].0 == node {
                return Some(i);
            }
            i += 1;
        }
        None
    }

    /// Registers `node` under `parent`, replacing what was registered for it.
    pub fn register(&mut self, node: NodeId, parent: Option<NodeId>, data: DispatchNodeData<H>)
        ensures
            final(self).map() == old(self).map().insert(node, DispatchNode { parent, data }),
    {
        let ghost old_map = self.map();
        let ghost s = self.nodes@;
        let ghost entry = DispatchNode { parent, data };
        match self.find(node) {
            Some(i) => {
                self.nodes.set(i, (node, DispatchNode { parent, data }));
                proof {
                    lemma_entry_index_set(s, node, i as int, entry);
                    assert forall|k: NodeId| #[trigger] old_map.contains_key(k) && k != node implies
                        self.map()[k] == old_map[k] by {
                        lemma_entry_index_found(s, k, 0);
                    }
                }
            },
            None => {
                self.nodes.push((node, DispatchNode { parent, data }));
                proof {
                    lemma_entry_index_push(s, node, entry);
                    assert forall|k: NodeId| #[trigger] old_map.contains_key(k) && k != node implies
                        self.map()[k] == old_map[k] by {
                        lemma_entry_index_found(s, k, 0);
                    }
                }
            },
        }
        assert(self.map() =~= old_map.insert(node, entry));
    }

    pub fn get(&self, node: NodeId) -> (r: Option<&DispatchNodeData<H>>)
        ensures
            r is Some <==> self.map().contains_key(node),
            r matches Some(d) ==> *d == self.map()[node].data,
    {
        match self.find(node) {
            Some(i) => Some(&self.nodes[i].1.data),
            None => None,
        }
    }

    pub fn get_mut(&mut self, node: NodeId) -> (r: Option<&mut DispatchNodeData<H>>)
        ensures
            r is Some <==> old(self).map().contains_key(node),
            r is None ==> final(self).map() == old(self).map(),
            r matches Some(d) ==> *d == old(self).map()[node].data && final(self).map() == old(
                self,
            ).map().insert(
                node,
                DispatchNode { parent: old(self).map()[node].parent, data: *final(d) },
            ),
    {
        match self.find(node) {
            Some(i) => {
                let ghost s = self.nodes@;
                let entry = &mut self.nodes[i];
                let d = &mut entry.1.data;
                proof {
                    lemma_entries_map_update(
                        s,
                        node,
                        i as int,
                        DispatchNode { parent: s[i as int].1.parent, data: *final(d) },
                    );
                }
                Some(d)
            },
            None => None,
        }
    }

    pub fn parent(&self, node: NodeId) -> (r: Option<NodeId>)
        ensures
            r == parent_in(self.map(), node),
    {
        match self.find(node) {
            Some(i) => self.nodes[i].1.parent,
            None => None,
        }
    }
}

proof fn lemma_entry_index_set<V>(s: Seq<(NodeId, V)>, node: NodeId, i: int, v: V)
    requires
        0 <= i < s.len(),
        entry_index(s, node, 0) == Some(i),
    ensures
        forall|k: NodeId| #[trigger]
            entry_index(s.update(i, (node, v)), k, 0) == entry_index(s, k, 0),
{
    lemma_entry_index_found(s, node, 0);
    let t = s.update(i, (node, v));
    assert forall|x: int| 0 <= x < s.len() implies #[trigger] s[x].0 == t[x].0 by {}
    assert forall|k: NodeId| #[trigger] entry_index(t, k, 0) == entry_index(s, k, 0) by {
        lemma_entry_index_same_keys(s, t, k, 0);
    }
}

proof fn lemma_entry_index_found<V>(s: Seq<(NodeId, V)>, key: NodeId, i: int)
    requires
        0 <= i,
    ensures
        entry_index(s, key, i) matches Some(k) ==> i <= k < s.len() && s[k].0 == key,
    decreases s.len() - i,
{
    if i < s.len() {
        lemma_entry_index_found(s, key, i + 1);
    }
}

proof fn lemma_entry_index_same_keys<V>(s: Seq<(NodeId, V)>, t: Seq<(NodeId, V)>, k: NodeId, j: int)
    requires
        s.len() == t.len(),
        forall|x: int| 0 <= x < s.len() ==> #[trigger] s[x].0 == t[x].0,
        0 <= j,
    ensures
        entry_index(t, k, j) == entry_index(s, k, j),
    decreases s.len() - j,
{
    if j < s.len() {
        assert(s[j].0 == t[j].0);
        lemma_entry_index_same_keys(s, t, k, j + 1);
    }
}

proof fn lemma_entry_index_push<V>(s: Seq<(NodeId, V)>, node: NodeId, v: V)
    requires
        entry_index(s, node, 0) is None,
    ensures
        entry_index(s.push((node, v)), node, 0) == Some(s.len() as int),
        forall|k: NodeId| k != node ==> #[trigger] entry_index(s.push((node, v)), k, 0)
            == entry_index(s, k, 0),
{
    lemma_entry_index_push_from(s, node, v, node, 0);
    assert forall|k: NodeId| k != node implies #[trigger] entry_index(s.push((node, v)), k, 0)
        == entry_index(s, k, 0) by {
        lemma_entry_index_push_from(s, node, v, k, 0);
    }
}

proof fn lemma_entry_index_push_from<V>(s: Seq<(NodeId, V)>, node: NodeId, v: V, k: NodeId, j: int)
    requires
        0 <= j <= s.len(),
        k == node ==> entry_index(s, node, j) is None,
    ensures
        k != node ==> entry_index(s.push((node, v)), k, j) == entry_index(s, k, j),
        k == node ==> entry_index(s.push((node, v)), k, j) == Some(s.len() as int),
    decreases s.len() - j,
{
    let t = s.push((node, v));
    if j < s.len() {
        assert(t[j] == s[j]);
        lemma_entry_index_push_from(s, node, v, k, j + 1);
    } else {
        assert(t[j] == (node, v));
        assert(entry_index(t, k, j + 1) is None);
    }
}

impl<H> DispatchTree<H> {
    /// The ancestors of `node`, nearest first.
    pub fn ancestors(&self, node: NodeId) -> (r: Vec<NodeId>)
        requires
            chain_ends(self.map(), node),
        ensures
            is_chain_length(self.map(), node, (r@.len() + 1) as nat),
            r@ == chain_seq(self.map(), node, (r@.len() + 1) as nat).drop_first(),
    {
        let ghost m = self.map();
        let ghost k_end = choose|k: nat| #[trigger] chain_at(m, node, k) is None;
        let mut r: Vec<NodeId> = Vec::new();
        let mut current = self.parent(node);
        assert(chain_at(m, node, 0) == Some(node));
        assert(r@.len() == 0);
        while current.is_some()
            invariant
                m == self.map(),
                chain_at(m, node, k_end) is None,
                current == chain_at(m, node, (r@.len() + 1) as nat),
                r@.len() + 1 <= k_end,
                forall|i: int| 0 <= i < r@.len() ==> chain_at(m, node, (i + 1) as nat) == Some(
                    #[trigger] r@[i],
                ),
            decreases k_end - r@.len(),
        {
            let n = current.unwrap();
            proof {
                if k_end <= r@.len() + 1 {
                    lemma_chain_stays_ended(m, node, k_end, (r@.len() + 1) as nat);
                }
            }
            r.push(n);
            current = self.parent(n);
        }
        proof {
            let len = (r@.len() + 1) as nat;
            assert forall|i: nat| i < len implies #[trigger] chain_at(m, node, i) is Some by {
                if i > 0 {
                    assert(chain_at(m, node, i) == Some(r@[i - 1]));
                }
            }
            assert(r@ =~= chain_seq(m, node, len).drop_first());
        }
        r
    }

    /// The path an event is captured along: from the root down to `target`.
    pub fn capture_path(&self, target: NodeId) -> (r: Vec<NodeId>)
        requires
            chain_ends(self.map(), target),
        ensures
            is_chain_length(self.map(), target, r@.len() as nat),
            r@ == chain_seq(self.map(), target, r@.len() as nat).reverse(),
    {
        let ancestors = self.ancestors(target);
        let n = ancestors.len();
        let mut path: Vec<NodeId> = Vec::new();
        let mut i: usize = n;
        while i > 0
            invariant
                i <= n,
                n == ancestors@.len(),
                path@ == ancestors@.subrange(i as int, n as int).reverse(),
            decreases i,
        {
            i -= 1;
            path.push(ancestors[i]);
            assert(path@ =~= ancestors@.subrange(i as int, n as int).reverse());
        }
        path.push(target);
        proof {
            let m = self.map();
            let full = chain_seq(m, target, (n + 1) as nat);
            assert(ancestors@.subrange(0, n as int) =~= ancestors@);
            assert(path@ =~= full.reverse());
        }
        path
    }

    /// The node an event bubbling up from `target` is handed to: the first node on the
    /// path from `target` to the root that is registered and whose handlers `handles`
    /// accepts (for a click, the first with a click handler).
    pub fn first_handler<F: Fn(&H) -> bool>(&self, target: NodeId, handles: F) -> (r: Option<NodeId>)
        requires
            chain_ends(self.map(), target),
            forall|h: &H| #[trigger] handles.requires((h,)),
        ensures
            r matches Some(n) ==> exists|k: nat|
                {
                    &&& #[trigger] chain_at(self.map(), target, k) == Some(n)
                    &&& self.map().contains_key(n)
                    &&& handles.ensures((&self.map()[n].data.handlers,), true)
                    &&& forall|l: nat|
                        l < k && (#[trigger] chain_at(self.map(), target, l) matches Some(x)
                            && self.map().contains_key(x)) ==> handles.ensures(
                            (&self.map()[chain_at(self.map(), target, l)->0].data.handlers,),
                            false,
                        )
                },
            r is None ==> forall|l: nat|
                (#[trigger] chain_at(self.map(), target, l) matches Some(x) && self.map().contains_key(x))
                    ==> handles.ensures(
                    (&self.map()[chain_at(self.map(), target, l)->0].data.handlers,),
                    false,
                ),
    {
        let path = self.bubble_path(target);
        let ghost m = self.map();
        let ghost len = path@.len() as nat;
        let n = path.len();
        for i in 0..n
            invariant
                n == path@.len(),
                m == self.map(),
                len == n,
                forall|h: &H| #[trigger] handles.requires((h,)),
                is_chain_length(m, target, len),
                path@ == chain_seq(m, target, len),
                forall|l: nat|
                    l < i && (#[trigger] chain_at(m, target, l) matches Some(x) && m.contains_key(x))
                        ==> handles.ensures((&m[chain_at(m, target, l)->0].data.handlers,), false),
        {
            let node = path[i];
            proof {
                assert(chain_at(m, target, i as nat) is Some);
                assert(path@[i as int] == chain_at(m, target, i as nat)->0);
            }
            match self.get(node) {
                Some(d) => {
                    if handles(&d.handlers) {
                        proof {
                            assert(chain_at(m, target, i as nat) == Some(node));
                        }
                        return Some(node);
                    }
                },
                None => {},
            }
        }
        proof {
            assert forall|l: nat|
                (#[trigger] chain_at(m, target, l) matches Some(x) && m.contains_key(x)) implies handles.ensures(
                (&m[chain_at(m, target, l)->0].data.handlers,),
                false,
            ) by {
                if l >= len {
                    lemma_chain_stays_ended(m, target, len, l);
                }
            }
        }
        None
    }

    /// The path an event bubbles along: from `target` up to the root.
    pub fn bubble_path(&self, target: NodeId) -> (r: Vec<NodeId>)
        requires
            chain_ends(self.map(), target),
        ensures
            is_chain_length(self.map(), target, r@.len() as nat),
            r@ == chain_seq(self.map(), target, r@.len() as nat),
    {
        let ancestors = self.ancestors(target);
        let mut path: Vec<NodeId> = Vec::new();
        path.push(target);
        let n = ancestors.len();
        for i in 0..n
            invariant
                n == ancestors@.len(),
                path@ == seq![target] + ancestors@.subrange(0, i as int),
        {
            path.push(ancestors[i]);
            assert(path@ =~= seq![target] + ancestors@.subrange(0, i + 1));
        }
        proof {
            let m = self.map();
            assert(ancestors@.subrange(0, n as int) =~= ancestors@);
            assert(path@ =~= chain_seq(m, target, (n + 1) as nat));
        }
        path
    }
}

} // verus!
