use std::any::{Any, TypeId};
use std::sync::Arc;

use velox::active::ActiveManager;
use velox::arena::RenderArena;
use velox::cursor::CursorManager;
use velox::dispatch::{DispatchNodeData, DispatchTree};
use velox::drag::{DragManager, DragPhaseUi};
use velox::event_result::EventResult;
use velox::focus::{FocusManager, TabStopMap};
use velox::hover::HoverManager;
use velox::key::{Key, Keystroke, Modifiers};
use velox::keymap::Keymap;
use velox::node_id::NodeId;
use velox::style::{CursorStyle, FontWeight};

fn make_ids(count: usize) -> Vec<NodeId> {
    (0..count).map(|i| NodeId::from_raw_parts(i as u32 + 1, 1)).collect()
}

fn data(cursor: Option<CursorStyle>) -> DispatchNodeData<()> {
    DispatchNodeData { cursor, ..Default::default() }
}

#[test]
fn font_weight_to_u16() {
    assert_eq!(FontWeight::Normal.to_u16(), 400);
    assert_eq!(FontWeight::Bold.to_u16(), 700);
}

#[test]
fn font_weights_increase() {
    let all = [
        FontWeight::Thin,
        FontWeight::Light,
        FontWeight::Normal,
        FontWeight::Medium,
        FontWeight::Semibold,
        FontWeight::Bold,
        FontWeight::Extrabold,
        FontWeight::Black,
    ];
    for w in all.windows(2) {
        assert!(w[0].to_u16() < w[1].to_u16());
    }
    assert_eq!(FontWeight::Thin.to_u16(), 100);
    assert_eq!(FontWeight::Black.to_u16(), 900);
}

#[test]
fn event_results() {
    let n = EventResult::none();
    assert!(!n.needs_redraw && n.cursor_changed.is_none());
    let r = EventResult::redraw();
    assert!(r.needs_redraw && r.cursor_changed.is_none());
}

#[test]
fn initial_focus_is_none() {
    let mgr = FocusManager::new();
    assert_eq!(mgr.focused(), None);
}

#[test]
fn request_focus() {
    let mut mgr = FocusManager::new();
    let node = NodeId::from_raw_parts(1, 1);
    let change = mgr.request_focus(node);
    assert_eq!(change.gained, Some(node));
    assert_eq!(change.lost, None);
    assert_eq!(mgr.focused(), Some(node));
}

#[test]
fn request_focus_change() {
    let mut mgr = FocusManager::new();
    let a = NodeId::from_raw_parts(1, 1);
    let b = NodeId::from_raw_parts(2, 1);
    mgr.request_focus(a);
    let change = mgr.request_focus(b);
    assert_eq!(change.lost, Some(a));
    assert_eq!(change.gained, Some(b));
    assert_eq!(mgr.focused(), Some(b));
}

#[test]
fn request_focus_same_node_is_noop() {
    let mut mgr = FocusManager::new();
    let node = NodeId::from_raw_parts(1, 1);
    mgr.request_focus(node);
    let change = mgr.request_focus(node);
    assert_eq!(change.gained, None);
    assert_eq!(change.lost, None);
}

#[test]
fn clear_focus() {
    let mut mgr = FocusManager::new();
    let node = NodeId::from_raw_parts(1, 1);
    mgr.request_focus(node);
    let change = mgr.clear_focus();
    assert_eq!(change.lost, Some(node));
    assert_eq!(change.gained, None);
    assert_eq!(mgr.focused(), None);
}

#[test]
fn tab_stop_forward() {
    let mut map = TabStopMap::new();
    let a = NodeId::from_raw_parts(1, 1);
    let b = NodeId::from_raw_parts(2, 1);
    let c = NodeId::from_raw_parts(3, 1);
    map.insert(a, 0);
    map.insert(b, 0);
    map.insert(c, 0);
    assert_eq!(map.next(None), Some(a));
    assert_eq!(map.next(Some(a)), Some(b));
    assert_eq!(map.next(Some(c)), Some(a));
}

#[test]
fn tab_stop_backward() {
    let mut map = TabStopMap::new();
    let a = NodeId::from_raw_parts(1, 1);
    let b = NodeId::from_raw_parts(2, 1);
    map.insert(a, 0);
    map.insert(b, 0);
    assert_eq!(map.prev(Some(a)), Some(b));
    assert_eq!(map.prev(Some(b)), Some(a));
}

#[test]
fn tab_index_ordering() {
    let mut map = TabStopMap::new();
    let a = NodeId::from_raw_parts(1, 1);
    let b = NodeId::from_raw_parts(2, 1);
    let c = NodeId::from_raw_parts(3, 1);
    map.insert(a, 2);
    map.insert(b, 0);
    map.insert(c, 1);
    assert_eq!(map.next(None), Some(b));
    assert_eq!(map.next(Some(b)), Some(c));
    assert_eq!(map.next(Some(c)), Some(a));
}

#[test]
fn tab_stop_empty_returns_none() {
    let map = TabStopMap::new();
    assert_eq!(map.next(None), None);
    assert_eq!(map.prev(None), None);
}

#[test]
fn focus_trap_constrains_tab() {
    let mut mgr = FocusManager::new();
    let outside = NodeId::from_raw_parts(1, 1);
    let inside_a = NodeId::from_raw_parts(2, 1);
    let inside_b = NodeId::from_raw_parts(3, 1);
    mgr.tab_stops_mut().insert(outside, 0);
    mgr.push_trap(vec![inside_a, inside_b]);
    assert_eq!(mgr.next_focus(), Some(inside_a));
    mgr.request_focus(inside_b);
    assert_eq!(mgr.next_focus(), Some(inside_a));
}

#[test]
fn focus_trap_pop_restores_normal_tab() {
    let mut mgr = FocusManager::new();
    let a = NodeId::from_raw_parts(1, 1);
    let b = NodeId::from_raw_parts(2, 1);
    let trap_node = NodeId::from_raw_parts(3, 1);
    mgr.tab_stops_mut().insert(a, 0);
    mgr.tab_stops_mut().insert(b, 0);
    mgr.push_trap(vec![trap_node]);
    assert_eq!(mgr.next_focus(), Some(trap_node));
    mgr.pop_trap();
    assert_eq!(mgr.next_focus(), Some(a));
}

#[test]
fn tab_stop_clear() {
    let mut map = TabStopMap::new();
    let a = NodeId::from_raw_parts(1, 1);
    map.insert(a, 0);
    assert!(!map.is_empty());
    map.clear();
    assert!(map.is_empty());
    assert_eq!(map.next(None), None);
}

#[test]
fn tab_order_is_stable_within_an_index() {
    let ids = make_ids(5);
    let mut map = TabStopMap::new();
    map.insert(ids[0], 1);
    map.insert(ids[1], -1);
    map.insert(ids[2], 1);
    map.insert(ids[3], 0);
    map.insert(ids[4], -1);
    assert_eq!(map.nodes(), vec![ids[1], ids[4], ids[3], ids[0], ids[2]]);
    assert_eq!(map.prev(None), Some(ids[2]));
    assert_eq!(map.prev(Some(ids[1])), Some(ids[2]));
    assert_eq!(map.next(Some(NodeId::from_raw_parts(99, 1))), Some(ids[1]));
}

#[test]
fn trap_tabs_in_given_order() {
    let ids = make_ids(3);
    let mut mgr = FocusManager::new();
    mgr.push_trap(vec![ids[2], ids[0], ids[1]]);
    assert_eq!(mgr.next_focus(), Some(ids[2]));
    mgr.request_focus(ids[2]);
    assert_eq!(mgr.next_focus(), Some(ids[0]));
    assert_eq!(mgr.prev_focus(), Some(ids[1]));
}

#[test]
fn initial_state_is_none() {
    let mgr = HoverManager::new();
    assert_eq!(mgr.hovered(), None);
}

#[test]
fn set_hovered_returns_changes() {
    let mut mgr = HoverManager::new();
    let ids = make_ids(1);
    let change = mgr.set_hovered(Some(ids[0]));
    assert_eq!(change.entered, Some(ids[0]));
    assert_eq!(change.exited, None);
    assert_eq!(mgr.hovered(), Some(ids[0]));
}

#[test]
fn changing_hover_returns_both() {
    let mut mgr = HoverManager::new();
    let ids = make_ids(2);
    mgr.set_hovered(Some(ids[0]));
    let change = mgr.set_hovered(Some(ids[1]));
    assert_eq!(change.exited, Some(ids[0]));
    assert_eq!(change.entered, Some(ids[1]));
}

#[test]
fn clear_hover() {
    let mut mgr = HoverManager::new();
    let ids = make_ids(1);
    mgr.set_hovered(Some(ids[0]));
    let change = mgr.set_hovered(None);
    assert_eq!(change.exited, Some(ids[0]));
    assert_eq!(change.entered, None);
    assert_eq!(mgr.hovered(), None);
}

#[test]
fn same_hover_no_change() {
    let mut mgr = HoverManager::new();
    let ids = make_ids(1);
    mgr.set_hovered(Some(ids[0]));
    let change = mgr.set_hovered(Some(ids[0]));
    assert_eq!(change.entered, None);
    assert_eq!(change.exited, None);
}

#[test]
fn none_to_none_no_change() {
    let mut mgr = HoverManager::new();
    let change = mgr.set_hovered(None);
    assert_eq!(change.entered, None);
    assert_eq!(change.exited, None);
}

#[test]
fn initial_state_none() {
    let mgr = ActiveManager::new();
    assert_eq!(mgr.active(), None);
}

#[test]
fn set_and_clear() {
    let mut mgr = ActiveManager::new();
    let ids = make_ids(1);
    mgr.set_active(Some(ids[0]));
    assert_eq!(mgr.active(), Some(ids[0]));
    mgr.clear();
    assert_eq!(mgr.active(), None);
}

#[test]
fn set_replaces_previous() {
    let mut mgr = ActiveManager::new();
    let ids = make_ids(2);
    mgr.set_active(Some(ids[0]));
    mgr.set_active(Some(ids[1]));
    assert_eq!(mgr.active(), Some(ids[1]));
}

#[test]
fn set_none_clears() {
    let mut mgr = ActiveManager::new();
    let ids = make_ids(1);
    mgr.set_active(Some(ids[0]));
    mgr.set_active(None);
    assert_eq!(mgr.active(), None);
}

#[test]
fn build_dispatch_tree_from_slots() {
    let tree: DispatchTree<()> = DispatchTree::new();
    assert!(tree.get(NodeId::from_raw_parts(1, 1)).is_none());
}

#[test]
fn register_and_lookup_node() {
    let mut tree: DispatchTree<()> = DispatchTree::new();
    let ids = make_ids(1);
    tree.register(ids[0], None, DispatchNodeData::default());
    assert!(tree.get(ids[0]).is_some());
}

#[test]
fn ancestors_walk_to_root() {
    let mut tree: DispatchTree<()> = DispatchTree::new();
    let ids = make_ids(3);
    let root = ids[0];
    let child = ids[1];
    let grandchild = ids[2];
    tree.register(root, None, DispatchNodeData::default());
    tree.register(child, Some(root), DispatchNodeData::default());
    tree.register(grandchild, Some(child), DispatchNodeData::default());
    let ancestors: Vec<_> = tree.ancestors(grandchild);
    assert_eq!(ancestors, vec![child, root]);
}

#[test]
fn capture_path_is_root_to_target() {
    let mut tree: DispatchTree<()> = DispatchTree::new();
    let ids = make_ids(2);
    let root = ids[0];
    let child = ids[1];
    tree.register(root, None, DispatchNodeData::default());
    tree.register(child, Some(root), DispatchNodeData::default());
    let path = tree.capture_path(child);
    assert_eq!(path, vec![root, child]);
}

#[test]
fn bubble_path_is_target_to_root() {
    let mut tree: DispatchTree<()> = DispatchTree::new();
    let ids = make_ids(2);
    let root = ids[0];
    let child = ids[1];
    tree.register(root, None, DispatchNodeData::default());
    tree.register(child, Some(root), DispatchNodeData::default());
    let path = tree.bubble_path(child);
    assert_eq!(path, vec![child, root]);
}

#[test]
fn clear_removes_all_nodes() {
    let mut tree: DispatchTree<()> = DispatchTree::new();
    let ids = make_ids(2);
    tree.register(ids[0], None, DispatchNodeData::default());
    tree.register(ids[1], Some(ids[0]), DispatchNodeData::default());
    tree.clear();
    assert!(tree.get(ids[0]).is_none());
    assert!(tree.get(ids[1]).is_none());
}

#[test]
fn get_mut_modifies_data() {
    let mut tree: DispatchTree<()> = DispatchTree::new();
    let ids = make_ids(1);
    tree.register(ids[0], None, DispatchNodeData::default());
    if let Some(data) = tree.get_mut(ids[0]) {
        data.focusable = true;
        data.cursor = Some(CursorStyle::Pointer);
    }
    let data = tree.get(ids[0]).unwrap();
    assert!(data.focusable);
    assert_eq!(data.cursor, Some(CursorStyle::Pointer));
}

#[test]
fn parent_returns_none_for_root() {
    let mut tree: DispatchTree<()> = DispatchTree::new();
    let ids = make_ids(1);
    tree.register(ids[0], None, DispatchNodeData::default());
    assert_eq!(tree.parent(ids[0]), None);
}

#[test]
fn parent_returns_parent_for_child() {
    let mut tree: DispatchTree<()> = DispatchTree::new();
    let ids = make_ids(2);
    tree.register(ids[0], None, DispatchNodeData::default());
    tree.register(ids[1], Some(ids[0]), DispatchNodeData::default());
    assert_eq!(tree.parent(ids[1]), Some(ids[0]));
}

#[test]
fn ancestors_empty_for_root() {
    let mut tree: DispatchTree<()> = DispatchTree::new();
    let ids = make_ids(1);
    tree.register(ids[0], None, DispatchNodeData::default());
    let ancestors: Vec<_> = tree.ancestors(ids[0]);
    assert!(ancestors.is_empty());
}

#[test]
fn register_again_replaces_entry() {
    let mut tree: DispatchTree<()> = DispatchTree::new();
    let ids = make_ids(3);
    tree.register(ids[1], Some(ids[0]), data(Some(CursorStyle::Text)));
    tree.register(ids[1], Some(ids[2]), data(None));
    assert_eq!(tree.parent(ids[1]), Some(ids[2]));
    assert_eq!(tree.get(ids[1]).unwrap().cursor, None);
    assert_eq!(tree.bubble_path(ids[1]), vec![ids[1], ids[2]]);
}

#[test]
fn initial_cursor_is_default() {
    let mgr = CursorManager::new();
    assert_eq!(mgr.current(), CursorStyle::Default);
}

#[test]
fn resolve_returns_cursor_from_target() {
    let mut mgr = CursorManager::new();
    let mut dispatch: DispatchTree<()> = DispatchTree::new();
    let node = NodeId::from_raw_parts(1, 1);
    dispatch.register(node, None, data(Some(CursorStyle::Pointer)));
    let result = mgr.resolve(node, &dispatch);
    assert_eq!(result, Some(CursorStyle::Pointer));
    assert_eq!(mgr.current(), CursorStyle::Pointer);
}

#[test]
fn resolve_walks_ancestors() {
    let mut mgr = CursorManager::new();
    let mut dispatch: DispatchTree<()> = DispatchTree::new();
    let parent = NodeId::from_raw_parts(1, 1);
    let child = NodeId::from_raw_parts(2, 1);
    dispatch.register(parent, None, data(Some(CursorStyle::Text)));
    dispatch.register(child, Some(parent), DispatchNodeData::default());
    let result = mgr.resolve(child, &dispatch);
    assert_eq!(result, Some(CursorStyle::Text));
}

#[test]
fn resolve_returns_none_when_unchanged() {
    let mut mgr = CursorManager::new();
    let mut dispatch: DispatchTree<()> = DispatchTree::new();
    let node = NodeId::from_raw_parts(1, 1);
    dispatch.register(node, None, data(Some(CursorStyle::Pointer)));
    mgr.resolve(node, &dispatch);
    let result = mgr.resolve(node, &dispatch);
    assert_eq!(result, None);
}

#[test]
fn resolve_resets_to_default_when_no_cursor() {
    let mut mgr = CursorManager::new();
    let mut dispatch: DispatchTree<()> = DispatchTree::new();
    let with_cursor = NodeId::from_raw_parts(1, 1);
    let without_cursor = NodeId::from_raw_parts(2, 1);
    dispatch.register(with_cursor, None, data(Some(CursorStyle::Grab)));
    dispatch.register(without_cursor, None, DispatchNodeData::default());
    mgr.resolve(with_cursor, &dispatch);
    assert_eq!(mgr.current(), CursorStyle::Grab);
    let result = mgr.resolve(without_cursor, &dispatch);
    assert_eq!(result, Some(CursorStyle::Default));
    assert_eq!(mgr.current(), CursorStyle::Default);
}

#[test]
fn resolve_no_change_when_already_default() {
    let mut mgr = CursorManager::new();
    let mut dispatch: DispatchTree<()> = DispatchTree::new();
    let node = NodeId::from_raw_parts(1, 1);
    dispatch.register(node, None, DispatchNodeData::default());
    let result = mgr.resolve(node, &dispatch);
    assert_eq!(result, None);
}

#[test]
fn reset_returns_to_default() {
    let mut mgr = CursorManager::new();
    let mut dispatch: DispatchTree<()> = DispatchTree::new();
    let node = NodeId::from_raw_parts(1, 1);
    dispatch.register(node, None, data(Some(CursorStyle::Wait)));
    mgr.resolve(node, &dispatch);
    let result = mgr.reset();
    assert_eq!(result, Some(CursorStyle::Default));
    assert_eq!(mgr.current(), CursorStyle::Default);
}

#[test]
fn reset_noop_when_already_default() {
    let mgr_mut = &mut CursorManager::new();
    let result = mgr_mut.reset();
    assert_eq!(result, None);
}

#[test]
fn child_cursor_overrides_parent() {
    let mut mgr = CursorManager::new();
    let mut dispatch: DispatchTree<()> = DispatchTree::new();
    let parent = NodeId::from_raw_parts(1, 1);
    let child = NodeId::from_raw_parts(2, 1);
    dispatch.register(parent, None, data(Some(CursorStyle::Text)));
    dispatch.register(child, Some(parent), data(Some(CursorStyle::Pointer)));
    let result = mgr.resolve(child, &dispatch);
    assert_eq!(result, Some(CursorStyle::Pointer));
}

#[test]
fn all_cursor_variants_exist() {
    let variants = [
        CursorStyle::Default,
        CursorStyle::Pointer,
        CursorStyle::Text,
        CursorStyle::Grab,
        CursorStyle::Grabbing,
        CursorStyle::NotAllowed,
        CursorStyle::Move,
        CursorStyle::Crosshair,
        CursorStyle::Wait,
        CursorStyle::Progress,
        CursorStyle::Help,
        CursorStyle::ZoomIn,
        CursorStyle::ZoomOut,
        CursorStyle::ResizeN,
        CursorStyle::ResizeS,
        CursorStyle::ResizeE,
        CursorStyle::ResizeW,
        CursorStyle::ResizeNE,
        CursorStyle::ResizeNW,
        CursorStyle::ResizeSE,
        CursorStyle::ResizeSW,
        CursorStyle::ResizeEW,
        CursorStyle::ResizeNS,
    ];
    assert_eq!(variants.len(), 23);
}

type Payload = (Arc<dyn Any + Send + Sync>, TypeId);
type Point = (f32, f32);

fn past_threshold(from: Point, to: Point) -> bool {
    let dx = to.0 - from.0;
    let dy = to.1 - from.1;
    (dx * dx + dy * dy).sqrt() >= 4.0
}

fn drag_manager() -> DragManager<Point, Payload> {
    DragManager::new((0.0, 0.0))
}

fn drag_to(mgr: &mut DragManager<Point, Payload>, to: Point, value: Option<Payload>) -> bool {
    let past = past_threshold(mgr.mousedown_position(), to);
    mgr.mouse_move(to, past, move || value)
}

#[test]
fn initial_state_is_idle() {
    let mgr = drag_manager();
    assert_eq!(mgr.phase(), DragPhaseUi::Idle);
    assert!(mgr.source_node().is_none());
    assert!(mgr.drag_value().is_none());
}

#[test]
fn pending_below_threshold_stays_pending() {
    let mut mgr = drag_manager();
    let ids = make_ids(1);
    mgr.begin_pending(ids[0], (10.0, 10.0));
    assert_eq!(mgr.phase(), DragPhaseUi::Pending);
    let activated = drag_to(
        &mut mgr,
        (11.0, 11.0),
        Some((Arc::new(42u32) as Arc<dyn Any + Send + Sync>, TypeId::of::<u32>())),
    );
    assert!(!activated);
    assert_eq!(mgr.phase(), DragPhaseUi::Pending);
}

#[test]
fn exceeds_threshold_activates_drag() {
    let mut mgr = drag_manager();
    let ids = make_ids(1);
    mgr.begin_pending(ids[0], (10.0, 10.0));
    let activated = drag_to(
        &mut mgr,
        (20.0, 10.0),
        Some((Arc::new(42u32) as Arc<dyn Any + Send + Sync>, TypeId::of::<u32>())),
    );
    assert!(activated);
    assert_eq!(mgr.phase(), DragPhaseUi::Active);
    assert_eq!(mgr.source_node(), Some(ids[0]));
}

#[test]
fn drag_finish_returns_value() {
    let mut mgr = drag_manager();
    let ids = make_ids(1);
    mgr.begin_pending(ids[0], (0.0, 0.0));
    drag_to(
        &mut mgr,
        (10.0, 0.0),
        Some((
            Arc::new("hello".to_string()) as Arc<dyn Any + Send + Sync>,
            TypeId::of::<String>(),
        )),
    );
    let result = mgr.finish();
    assert!(result.is_some());
    let finish = result.unwrap();
    assert_eq!(finish.source_node, Some(ids[0]));
    assert!(finish.value.is_some());
    let (val, _) = finish.value.unwrap();
    assert_eq!(*val.downcast_ref::<String>().unwrap(), "hello");
    assert_eq!(mgr.phase(), DragPhaseUi::Idle);
}

#[test]
fn drag_cancel_resets_to_idle() {
    let mut mgr = drag_manager();
    let ids = make_ids(1);
    mgr.begin_pending(ids[0], (0.0, 0.0));
    drag_to(
        &mut mgr,
        (10.0, 0.0),
        Some((Arc::new(1u32) as Arc<dyn Any + Send + Sync>, TypeId::of::<u32>())),
    );
    assert_eq!(mgr.phase(), DragPhaseUi::Active);
    mgr.cancel();
    assert_eq!(mgr.phase(), DragPhaseUi::Idle);
    assert!(mgr.source_node().is_none());
    assert!(mgr.drag_value().is_none());
}

#[test]
fn finish_on_pending_returns_none() {
    let mut mgr = drag_manager();
    let ids = make_ids(1);
    mgr.begin_pending(ids[0], (0.0, 0.0));
    let result = mgr.finish();
    assert!(result.is_none());
    assert_eq!(mgr.phase(), DragPhaseUi::Idle);
}

#[test]
fn no_value_factory_cancels_drag() {
    let mut mgr = drag_manager();
    let ids = make_ids(1);
    mgr.begin_pending(ids[0], (0.0, 0.0));
    let activated = drag_to(&mut mgr, (10.0, 0.0), None);
    assert!(!activated);
    assert_eq!(mgr.phase(), DragPhaseUi::Idle);
}

#[test]
fn idle_move_does_not_call_factory() {
    let mut mgr = drag_manager();
    let activated = mgr.mouse_move((50.0, 50.0), true, || -> Option<Payload> {
        panic!("no drag is pending")
    });
    assert!(!activated);
    assert_eq!(mgr.current_position(), (50.0, 50.0));
}

fn ks(key: Key, modifiers: Modifiers) -> Keystroke {
    Keystroke { key, modifiers }
}

#[test]
fn keymap_matches_binding() {
    let mut keymap = Keymap::new();
    keymap.bind(ks(Key::Enter, Modifiers::ctrl()), None, "TestAction");
    let result = keymap.match_keystroke(&ks(Key::Enter, Modifiers::ctrl()), &[]);
    assert!(result.is_some());
    assert_eq!(*result.unwrap(), "TestAction");
}

#[test]
fn keymap_no_match_wrong_key() {
    let mut keymap = Keymap::new();
    keymap.bind(ks(Key::Enter, Modifiers::ctrl()), None, "TestAction");
    let result = keymap.match_keystroke(&ks(Key::Space, Modifiers::ctrl()), &[]);
    assert!(result.is_none());
}

#[test]
fn keymap_no_match_wrong_modifier() {
    let mut keymap = Keymap::new();
    keymap.bind(ks(Key::S, Modifiers::ctrl()), None, "TestAction");
    let result = keymap.match_keystroke(&ks(Key::S, Modifiers::meta()), &[]);
    assert!(result.is_none());
}

#[test]
fn keymap_context_filter() {
    let mut keymap = Keymap::new();
    keymap.bind(ks(Key::Enter, Modifiers::ctrl()), Some("Editor"), "TestAction");
    let no_match = keymap.match_keystroke(&ks(Key::Enter, Modifiers::ctrl()), &["Terminal".into()]);
    assert!(no_match.is_none());
    let matched = keymap.match_keystroke(&ks(Key::Enter, Modifiers::ctrl()), &["Editor".into()]);
    assert!(matched.is_some());
}

#[test]
fn keymap_last_binding_wins() {
    let mut keymap = Keymap::new();
    let k = ks(Key::S, Modifiers::ctrl());
    keymap.bind(k, None, "TestAction");
    keymap.bind(k, None, "OtherAction");
    let result = keymap.match_keystroke(&k, &[]);
    assert!(result.is_some());
    assert_eq!(*result.unwrap(), "OtherAction");
}

#[test]
fn keymap_context_binding_over_global() {
    let mut keymap = Keymap::new();
    let k = ks(Key::Enter, Modifiers::empty());
    keymap.bind(k, None, "TestAction");
    keymap.bind(k, Some("Editor"), "OtherAction");
    let result = keymap.match_keystroke(&k, &["Editor".into()]);
    assert!(result.is_some());
    assert_eq!(*result.unwrap(), "OtherAction");
}

#[test]
fn keymap_falls_back_outside_context_and_clears() {
    let mut keymap = Keymap::new();
    let k = ks(Key::Z, Modifiers::ctrl().union(Modifiers::shift()));
    keymap.bind(k, None, "Redo");
    keymap.bind(k, Some("Editor"), "EditorRedo");
    assert_eq!(keymap.match_keystroke(&k, &["Terminal".into()]), Some(&"Redo"));
    keymap.clear();
    assert_eq!(keymap.match_keystroke(&k, &[]), None);
}

#[test]
fn arena_allocates_and_resets() {
    let mut arena = RenderArena::new();
    let s = arena.alloc_str("hello");
    assert_eq!(s, "hello");
    assert!(arena.bytes_allocated() > 0);
    arena.reset();
}

#[test]
fn arena_slice_alloc() {
    let arena = RenderArena::new();
    let data = [1.0f32, 2.0, 3.0];
    let allocated = arena.alloc_slice(&data);
    assert_eq!(allocated, &[1.0, 2.0, 3.0]);
}
