use velox::node_id::NodeId;
use velox::slot_tree::{node_after_rebuild, node_at_path, removal_order, slot_path, SlotTree};

fn id(n: u32) -> NodeId {
    NodeId::from_raw_parts(n, 1)
}

fn leaf(n: u32) -> SlotTree {
    SlotTree { node_id: id(n), children: Vec::new() }
}

fn forest() -> Vec<SlotTree> {
    vec![
        SlotTree { node_id: id(1), children: vec![leaf(2), SlotTree { node_id: id(3), children: vec![leaf(4)] }] },
        leaf(5),
    ]
}

#[test]
fn slot_path_finds_nested_node() {
    let f = forest();
    assert_eq!(slot_path(&f, id(4)), Some(vec![0, 1, 0]));
    assert_eq!(slot_path(&f, id(5)), Some(vec![1]));
    assert_eq!(slot_path(&f, id(1)), Some(vec![0]));
    assert_eq!(slot_path(&f, id(9)), None);
}

#[test]
fn node_at_path_follows_indices() {
    let f = forest();
    assert_eq!(node_at_path(&f, &vec![0, 1, 0]), Some(id(4)));
    assert_eq!(node_at_path(&f, &vec![0, 1]), Some(id(3)));
    assert_eq!(node_at_path(&f, &vec![2]), None);
    assert_eq!(node_at_path(&f, &vec![1, 0]), None);
    assert_eq!(node_at_path(&f, &vec![]), None);
}

#[test]
fn focus_follows_path_into_rebuilt_tree() {
    let old = forest();
    let new = vec![SlotTree { node_id: id(11), children: vec![leaf(12), SlotTree { node_id: id(13), children: vec![leaf(14)] }] }];
    assert_eq!(node_after_rebuild(&old, &new, id(4)), Some(Some(id(14))));
    assert_eq!(node_after_rebuild(&old, &new, id(5)), Some(None));
    assert_eq!(node_after_rebuild(&old, &new, id(9)), None);
}

#[test]
fn removal_drops_children_before_parent() {
    let f = forest();
    assert_eq!(removal_order(&f[0]), vec![id(2), id(4), id(3), id(1)]);
    assert_eq!(removal_order(&f[1]), vec![id(5)]);
}
