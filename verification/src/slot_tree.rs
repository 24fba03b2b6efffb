//! The node skeleton of the mounted element tree, and paths into it: a path is the
//! index of a slot among its siblings at each level, from the roots down. Focus and
//! hover follow the path of their node when the tree is rebuilt.

use vstd::prelude::*;

use crate::node_id::NodeId;

verus! {

/// A mounted element's node and the slots of its children.
pub struct SlotTree {
    pub node_id: NodeId,
    pub children: Vec<SlotTree>,
}

/// The path of the first slot holding `target` in a pre-order walk of `slots`, looking
/// from the slot at `i` on.
pub open spec fn find_path_from(slots: Seq<SlotTree>, target: NodeId, i: int) -> Option<Seq<int>>
    decreases slots, slots.len() - i,
{
    if i < 0 || i >= slots.len() {
        None
    } else if slots[i].node_id == target {
        Some(seq![i])
    } else {
        match find_path_from(slots[i].children@, target, 0) {
            Some(p) => Some(seq![i] + p),
            None => find_path_from(slots, target, i + 1),
        }
    }
}

/// The path of the first slot holding `target` in a pre-order walk of `slots`.
pub open spec fn find_path(slots: Seq<SlotTree>, target: NodeId) -> Option<Seq<int>> {
    find_path_from(slots, target, 0)
}

/// The node of the slot that `path` leads to in `slots`, if it leads to one.
pub open spec fn node_at(slots: Seq<SlotTree>, path: Seq<int>) -> Option<NodeId>
    decreases path.len(),
{
    if path.len() == 0 || path[0] < 0 || path[0] >= slots.len() {
        None
    } else if path.len() == 1 {
        Some(slots[path[0]].node_id)
    } else {
        node_at(slots[path[0]].children@, path.drop_first())
    }
}

/// The path of the first slot (in pre-order) that holds `target`.
pub fn slot_path(forest: &Vec<SlotTree>, target: NodeId) -> (r: Option<Vec<usize>>)
    ensures
        match r {
            Some(p) => find_path(forest@, target) == Some(p@.map_values(|x: usize| x as int)),
            None => find_path(forest@, target) is None,
        },
    decreases forest@,
{
    let n = forest.len();
    let mut i: usize = 0;
    while i < n
        invariant
            n == forest@.len(),
            i <= n,
            find_path(forest@, target) == find_path_from(forest@, target, i as int),
        decreases n - i,
    {
        let slot = &forest[i];
        if slot.node_id == target {
            let mut p: Vec<usize> = Vec::new();
            p.push(i);
            assert(p@.map_values(|x: usize| x as int) =~= seq![i as int]);
            return Some(p);
        }
        proof {
            assert(decreases_to!(forest@ => forest@[i as int]));
        }
        match slot_path(&slot.children, target) {
            Some(sub) => {
                let mut p: Vec<usize> = Vec::new();
                p.push(i);
                let mut k: usize = 0;
                while k < sub.len()
                    invariant
                        k <= sub@.len(),
                        p@.len() == k + 1,
                        p@[0] == i,
                        forall|j: int| 0 <= j < k ==> p@[j + 1] == sub@[j],
                    decreases sub@.len() - k,
                {
                    p.push(sub[k]);
                    k += 1;
                }
                proof {
                    assert(p@.map_values(|x: usize| x as int) =~= seq![i as int] + sub@.map_values(
                        |x: usize| x as int,
                    ));
                }
                return Some(p);
            },
            None => {},
        }
        i += 1;
    }
    None
}

/// The node of the slot that `path` leads to, if it leads to one.
pub fn node_at_path(forest: &Vec<SlotTree>, path: &Vec<usize>) -> (r: Option<NodeId>)
    ensures
        r == node_at(forest@, path@.map_values(|x: usize| x as int)),
{
    let mut slots = forest;
    let mut k: usize = 0;
    let ghost pv = path@.map_values(|x: usize| x as int);
    if path.len() == 0 {
        return None;
    }
    assert(pv.subrange(0, pv.len() as int) =~= pv);
    while k < path.len()
        invariant
            k < path@.len(),
            pv == path@.map_values(|x: usize| x as int),
            node_at(forest@, pv) == node_at(slots@, pv.subrange(k as int, pv.len() as int)),
        decreases path@.len() - k,
    {
        let idx = path[k];
        let ghost rest = pv.subrange(k as int, pv.len() as int);
        assert(rest[0] == idx as int);
        if idx >= slots.len() {
            return None;
        }
        if k + 1 == path.len() {
            return Some(slots[idx].node_id);
        }
        proof {
            assert(rest.drop_first() =~= pv.subrange(k + 1, pv.len() as int));
        }
        slots = &slots[idx].children;
        k += 1;
    }
    None
}

proof fn lemma_find_from_leads_to(slots: Seq<SlotTree>, target: NodeId, i: int)
    ensures
        find_path_from(slots, target, i) matches Some(p) ==> node_at(slots, p) == Some(target),
    decreases slots, slots.len() - i,
{
    if 0 <= i < slots.len() && slots[i].node_id != target {
        assert(decreases_to!(slots => slots[i]));
        lemma_find_from_leads_to(slots[i].children@, target, 0);
        lemma_find_from_leads_to(slots, target, i + 1);
        match find_path_from(slots[i].children@, target, 0) {
            Some(p) => {
                let q = seq![i] + p;
                assert(q.drop_first() =~= p);
                assert(p.len() > 0) by {
                    reveal_with_fuel(node_at, 1);
                }
            },
            None => {},
        }
    }
}

/// The path found for a node leads back to that node.
pub proof fn lemma_path_leads_to_node(slots: Seq<SlotTree>, target: NodeId)
    ensures
        find_path(slots, target) matches Some(p) ==> node_at(slots, p) == Some(target),
{
    lemma_find_from_leads_to(slots, target, 0);
}

/// Where the node at the path of `node` in the old tree went in the new one: the node
/// that now sits at that path, if any. `None` for a node the old tree does not hold.
pub fn node_after_rebuild(old_forest: &Vec<SlotTree>, new_forest: &Vec<SlotTree>, node: NodeId) -> (r:
    Option<Option<NodeId>>)
    ensures
        match find_path(old_forest@, node) {
            Some(p) => r == Some(node_at(new_forest@, p)),
            None => r is None,
        },
{
    match slot_path(old_forest, node) {
        Some(p) => Some(node_at_path(new_forest, &p)),
        None => None,
    }
}

/// The nodes of a slot's subtree, children before their parent, siblings in order: the
/// order in which a removed subtree's nodes are dropped.
pub open spec fn post_order(t: SlotTree) -> Seq<NodeId>
    decreases t,
{
    forest_post_order(t.children@).push(t.node_id)
}

/// The post-order of each slot of `s` in turn.
pub open spec fn forest_post_order(s: Seq<SlotTree>) -> Seq<NodeId>
    decreases s,
{
    if s.len() == 0 {
        Seq::empty()
    } else {
        forest_post_order(s.drop_last()) + post_order(s.last())
    }
}

/// The nodes to drop when the subtree of `tree` is removed, children first.
pub fn removal_order(tree: &SlotTree) -> (r: Vec<NodeId>)
    ensures
        r@ == post_order(*tree),
    decreases tree,
{
    let mut r: Vec<NodeId> = Vec::new();
    let n = tree.children.len();
    let ghost cs = tree.children@;
    let mut i: usize = 0;
    assert(cs.take(0) =~= Seq::<SlotTree>::empty());
    while i < n
        invariant
            n == cs.len(),
            cs == tree.children@,
            i <= n,
            r@ == forest_post_order(cs.take(i as int)),
        decreases n - i,
    {
        proof {
            assert(decreases_to!(tree => tree.children));
            assert(decreases_to!(tree.children => tree.children@));
            assert(decreases_to!(tree.children@ => tree.children@[i as int]));
        }
        let mut sub = removal_order(&tree.children[i]);
        r.append(&mut sub);
        proof {
            let t = cs.take(i + 1);
            assert(t.drop_last() =~= cs.take(i as int));
            assert(t.last() == cs[i as int]);
        }
        i += 1;
    }
    assert(cs.take(n as int) =~= cs);
    r.push(tree.node_id);
    r
}

} // verus!
