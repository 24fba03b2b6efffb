use velox::child_matching::match_children;

#[test]
fn keyed_reorder_reuses_each_slot() {
    let old = vec![Some(1u64), Some(2), Some(3)];
    let new = vec![Some(3u64), Some(1), Some(2)];
    let r = match_children(&old, &new);
    assert_eq!(r.matched, vec![Some(2), Some(0), Some(1)]);
    assert!(r.unused.is_empty());
}

#[test]
fn keyed_insert_and_remove_matches_survivor() {
    let old = vec![Some(1u64), Some(2)];
    let new = vec![Some(2u64), Some(3)];
    let r = match_children(&old, &new);
    assert_eq!(r.matched, vec![Some(1), None]);
    assert_eq!(r.unused, vec![0]);
}

#[test]
fn mixed_keyed_and_unkeyed_children_swap() {
    let old = vec![Some(1u64), None];
    let new = vec![None, Some(1u64)];
    let r = match_children(&old, &new);
    assert_eq!(r.matched, vec![Some(1), Some(0)]);
    assert!(r.unused.is_empty());
}

#[test]
fn unkeyed_children_match_in_order() {
    let old: Vec<Option<u64>> = vec![None, None];
    let shorter: Vec<Option<u64>> = vec![None];
    let r = match_children(&old, &shorter);
    assert_eq!(r.matched, vec![Some(0)]);
    assert_eq!(r.unused, vec![1]);

    let longer: Vec<Option<u64>> = vec![None, None, None];
    let r = match_children(&old, &longer);
    assert_eq!(r.matched, vec![Some(0), Some(1), None]);
    assert!(r.unused.is_empty());
}

#[test]
fn repeated_keys_take_last_old_slot_once() {
    let old = vec![Some(7u64), None, Some(7)];
    let new = vec![Some(7u64), Some(7), None];
    let r = match_children(&old, &new);
    assert_eq!(r.matched, vec![Some(2), None, Some(1)]);
    assert_eq!(r.unused, vec![0]);
}

#[test]
fn empty_new_list_removes_everything() {
    let old = vec![Some(4u64), None, Some(5)];
    let new: Vec<Option<u64>> = Vec::new();
    let r = match_children(&old, &new);
    assert!(r.matched.is_empty());
    assert_eq!(r.unused, vec![0, 1, 2]);
}
