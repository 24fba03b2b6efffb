use velox::coordinator::UiCoordinator;
use velox::dispatch::DispatchNodeData;
use velox::drag::DragPhaseUi;
use velox::element_kinds::ScrollAxis;
use velox::focus::FocusChange;
use velox::key::{Key, Keystroke, Modifiers};
use velox::node_id::NodeId;
use velox::style::CursorStyle;

type Coord = UiCoordinator<(), (f32, f32), u32, &'static str, u64>;

fn coord() -> Coord {
    UiCoordinator::new((0.0, 0.0))
}

fn node_id(n: u32) -> NodeId {
    NodeId::from_raw_parts(n, 1)
}

fn focusable() -> DispatchNodeData<()> {
    DispatchNodeData { focusable: true, ..Default::default() }
}

#[test]
fn coordinator_tracks_hover() {
    let mut coord = coord();
    let node = node_id(1);
    coord.register_node(node, None, DispatchNodeData::default());
    let (result, change) = coord.handle_mouse_move(Some(node), (10.0, 10.0), false);
    assert!(result.needs_redraw);
    assert_eq!(change.entered, Some(node));
    assert_eq!(coord.hovered_node(), Some(node));
}

#[test]
fn coordinator_hover_exit() {
    let mut coord = coord();
    let a = node_id(1);
    let b = node_id(2);
    coord.register_node(a, None, DispatchNodeData::default());
    coord.register_node(b, None, DispatchNodeData::default());
    coord.handle_mouse_move(Some(a), (10.0, 10.0), false);
    let (result, change) = coord.handle_mouse_move(Some(b), (20.0, 20.0), false);
    assert!(result.needs_redraw);
    assert_eq!(change.exited, Some(a));
    assert_eq!(coord.hovered_node(), Some(b));
}

#[test]
fn coordinator_mousedown_sets_active_and_focus() {
    let mut coord = coord();
    let node = node_id(1);
    coord.register_node(node, None, focusable());
    let (_, change) = coord.handle_mouse_down(node, (10.0, 10.0), false);
    assert_eq!(change, FocusChange { gained: Some(node), lost: None });
    assert_eq!(coord.active_node(), Some(node));
    assert_eq!(coord.focused_node(), Some(node));
}

#[test]
fn coordinator_mouseup_clears_active() {
    let mut coord = coord();
    let node = node_id(1);
    coord.register_node(node, None, DispatchNodeData::default());
    coord.handle_mouse_down(node, (10.0, 10.0), false);
    coord.handle_mouse_up(Some(node), true, 0, false);
    assert_eq!(coord.active_node(), None);
}

#[test]
fn coordinator_click_synthesis() {
    let mut coord = coord();
    let node = node_id(1);
    coord.register_node(node, None, DispatchNodeData::default());
    coord.handle_mouse_down(node, (10.0, 10.0), false);
    let (_, click) = coord.handle_mouse_up(Some(node), true, 100, false);
    assert_eq!(click, Some((node, 1)));
    coord.handle_mouse_down(node, (10.0, 10.0), false);
    let (_, click) = coord.handle_mouse_up(Some(node), true, 300, true);
    assert_eq!(click, Some((node, 2)));
    assert_eq!(coord.last_click_time(), Some(&300));
}

#[test]
fn coordinator_no_click_when_moved_away() {
    let mut coord = coord();
    let a = node_id(1);
    let b = node_id(2);
    coord.register_node(a, None, DispatchNodeData::default());
    coord.register_node(b, None, DispatchNodeData::default());
    coord.handle_mouse_down(a, (10.0, 10.0), false);
    let (_, click) = coord.handle_mouse_up(Some(b), true, 0, false);
    assert_eq!(click, None);
    coord.handle_mouse_down(a, (10.0, 10.0), false);
    let (_, click) = coord.handle_mouse_up(Some(a), false, 0, false);
    assert_eq!(click, None);
    assert_eq!(coord.last_mousedown_position(), None);
}

#[test]
fn coordinator_scroll_creates_state() {
    let mut coord = coord();
    let node = node_id(1);
    let axis = coord.register_node(node, None, DispatchNodeData { scrollable_y: true, ..Default::default() });
    assert!(coord.has_scroll_state(node));
    assert_eq!(axis, Some(ScrollAxis::Vertical));
    let both = coord.register_node(
        node_id(2),
        None,
        DispatchNodeData { scrollable_x: true, scrollable_y: true, ..Default::default() },
    );
    assert_eq!(both, Some(ScrollAxis::Both));
    assert_eq!(coord.register_node(node_id(3), None, DispatchNodeData::default()), None);
}

#[test]
fn coordinator_cursor_resolution() {
    let mut coord = coord();
    let node = node_id(1);
    coord.register_node(node, None, DispatchNodeData { cursor: Some(CursorStyle::Pointer), ..Default::default() });
    let (result, _) = coord.handle_mouse_move(Some(node), (10.0, 10.0), false);
    assert_eq!(result.cursor_changed, Some(CursorStyle::Pointer));
    let (result, _) = coord.handle_mouse_move(None, (500.0, 10.0), false);
    assert_eq!(result.cursor_changed, Some(CursorStyle::Default));
}

#[test]
fn coordinator_tab_cycling() {
    let mut coord = coord();
    let a = node_id(1);
    let b = node_id(2);
    coord.register_node(a, None, focusable());
    coord.register_node(b, None, focusable());
    let (result, _) = coord.handle_tab(false);
    assert!(result.needs_redraw);
    assert_eq!(coord.focused_node(), Some(a));
    coord.handle_tab(false);
    assert_eq!(coord.focused_node(), Some(b));
    coord.handle_tab(false);
    assert_eq!(coord.focused_node(), Some(a));
    let (_, change) = coord.handle_tab(true);
    assert_eq!(change, FocusChange { gained: Some(b), lost: Some(a) });
}

#[test]
fn coordinator_hover_handler_called() {
    let mut coord = coord();
    let node = node_id(1);
    coord.register_node(node, None, DispatchNodeData::default());
    let (_, change) = coord.handle_mouse_move(Some(node), (10.0, 10.0), false);
    assert_eq!(change.entered, Some(node));
    let (_, change) = coord.handle_mouse_move(None, (-1.0, -1.0), false);
    assert_eq!(change.exited, Some(node));
    assert_eq!(change.entered, None);
}

#[test]
fn coordinator_bubble_click_to_parent() {
    let mut coord = coord();
    let parent = node_id(1);
    let child = node_id(2);
    coord.register_node(parent, None, DispatchNodeData::default());
    coord.register_node(child, Some(parent), DispatchNodeData::default());
    coord.handle_mouse_down(child, (10.0, 10.0), false);
    let (_, click) = coord.handle_mouse_up(Some(child), true, 0, false);
    assert_eq!(click, Some((child, 1)));
    assert_eq!(coord.dispatch_tree().bubble_path(child), vec![child, parent]);
    let mut routed: UiCoordinator<bool, (f32, f32), u32, &'static str, u64> = UiCoordinator::new((0.0, 0.0));
    routed.register_node(parent, None, DispatchNodeData { handlers: true, ..Default::default() });
    routed.register_node(child, Some(parent), DispatchNodeData::default());
    assert_eq!(routed.dispatch_tree().first_handler(child, |h: &bool| *h), Some(parent));
}

#[test]
fn release_over_descendant_clicks_pressed_node() {
    let mut coord = coord();
    let parent = node_id(1);
    let child = node_id(2);
    coord.register_node(parent, None, DispatchNodeData::default());
    coord.register_node(child, Some(parent), DispatchNodeData::default());
    assert!(coord.is_ancestor(parent, child));
    assert!(!coord.is_ancestor(child, parent));
    coord.handle_mouse_down(parent, (10.0, 10.0), false);
    let (_, click) = coord.handle_mouse_up(Some(child), true, 0, false);
    assert_eq!(click, Some((parent, 1)));
}

#[test]
fn drag_shows_grabbing_cursor() {
    let mut coord = coord();
    let node = node_id(1);
    coord.register_node(node, None, DispatchNodeData::default());
    coord.handle_mouse_down(node, (0.0, 0.0), true);
    let (result, _) = coord.handle_mouse_move(Some(node), (1.0, 0.0), false);
    assert_eq!(result.cursor_changed, None);
    assert_eq!(coord.drag_manager().phase(), DragPhaseUi::Pending);
    let (result, _) = coord.handle_mouse_move(Some(node), (9.0, 0.0), true);
    assert_eq!(coord.drag_manager().phase(), DragPhaseUi::Idle);
    assert_ne!(result.cursor_changed, Some(CursorStyle::Grabbing));
}

#[test]
fn accessibility_focus_blur_and_click() {
    let mut coord = coord();
    let a = node_id(1);
    coord.register_node(a, None, focusable());
    let (r, change) = coord.handle_accessibility_focus(a);
    assert!(r.needs_redraw);
    assert_eq!(change.gained, Some(a));
    let (r, _) = coord.handle_accessibility_focus(a);
    assert!(!r.needs_redraw);
    let (r, change) = coord.handle_accessibility_blur(a);
    assert!(r.needs_redraw);
    assert_eq!(change.lost, Some(a));
    let (r, _) = coord.handle_accessibility_focus(node_id(9));
    assert!(!r.needs_redraw);
    let (r, change, click) = coord.handle_accessibility_click(a, 5, false);
    assert!(r.needs_redraw);
    assert_eq!(change.gained, Some(a));
    assert_eq!(click, Some(1));
}

#[test]
fn prune_forgets_removed_nodes() {
    let mut coord = coord();
    let a = node_id(1);
    coord.register_node(a, None, focusable());
    coord.handle_mouse_move(Some(a), (1.0, 1.0), false);
    coord.handle_mouse_down(a, (1.0, 1.0), false);
    coord.rebuild_dispatch();
    coord.prune_interaction_state();
    assert_eq!(coord.focused_node(), None);
    assert_eq!(coord.hovered_node(), None);
    assert_eq!(coord.active_node(), None);
}

#[test]
fn key_down_routes_through_contexts() {
    let mut coord = coord();
    let root = node_id(1);
    let editor = node_id(2);
    coord.register_node(root, None, DispatchNodeData { key_context: Some("Workspace".into()), ..Default::default() });
    coord.register_node(
        editor,
        Some(root),
        DispatchNodeData { focusable: true, key_context: Some("Editor".into()), ..Default::default() },
    );
    let ks = Keystroke { key: Key::S, modifiers: Modifiers::ctrl() };
    coord.keymap_mut().bind(ks, Some("Editor"), "save");
    coord.keymap_mut().bind(ks, Some("Terminal"), "noop");
    assert!(coord.handle_key_down(&ks).is_none());
    coord.handle_tab(false);
    assert_eq!(coord.collect_key_contexts(editor), vec!["Editor".to_string(), "Workspace".to_string()]);
    let (action, path) = coord.handle_key_down(&ks).unwrap();
    assert_eq!(action, Some(&"save"));
    assert_eq!(path, vec![editor, root]);
}

#[test]
fn scroll_state_is_made_once_and_kept_across_rebuilds() {
    let mut coord = coord();
    let node = node_id(1);
    let scrolling = || DispatchNodeData::<()> { scrollable_y: true, ..Default::default() };
    assert_eq!(coord.register_node(node, None, scrolling()), Some(ScrollAxis::Vertical));
    coord.rebuild_dispatch();
    assert!(coord.has_scroll_state(node));
    assert_eq!(coord.register_node(node, None, scrolling()), None);
    assert!(coord.has_scroll_state(node));
}

#[test]
fn scroll_bubbles_to_nearest_scrollable_ancestor() {
    let mut coord = coord();
    let outer = node_id(1);
    let inner = node_id(2);
    let leaf = node_id(3);
    coord.register_node(outer, None, DispatchNodeData { scrollable_y: true, ..Default::default() });
    coord.register_node(inner, Some(outer), DispatchNodeData { scrollable_x: true, ..Default::default() });
    coord.register_node(leaf, Some(inner), DispatchNodeData::default());
    assert_eq!(coord.scroll_target(leaf), Some(inner));
    assert_eq!(coord.scroll_target(inner), Some(inner));
    assert_eq!(coord.scroll_target(outer), Some(outer));
}

#[test]
fn scroll_without_scrollable_ancestor_has_no_target() {
    let mut coord = coord();
    let parent = node_id(1);
    let child = node_id(2);
    coord.register_node(parent, None, DispatchNodeData::default());
    coord.register_node(child, Some(parent), DispatchNodeData::default());
    assert_eq!(coord.scroll_target(child), None);
    assert_eq!(coord.scroll_target(node_id(9)), None);
}

#[test]
fn prune_drops_scroll_states_of_removed_nodes() {
    let mut coord = coord();
    let kept = node_id(1);
    let gone = node_id(2);
    coord.register_node(kept, None, DispatchNodeData { scrollable_y: true, ..Default::default() });
    coord.register_node(gone, None, DispatchNodeData { scrollable_y: true, ..Default::default() });
    coord.rebuild_dispatch();
    coord.register_node(kept, None, DispatchNodeData { scrollable_y: true, ..Default::default() });
    coord.prune_scroll_states();
    assert!(coord.has_scroll_state(kept));
    assert!(!coord.has_scroll_state(gone));
}

#[test]
fn click_routes_to_first_handler_on_bubble_path() {
    let mut coord: UiCoordinator<bool, (f32, f32), u32, &'static str, u64> = UiCoordinator::new((0.0, 0.0));
    let root = node_id(1);
    let parent = node_id(2);
    let child = node_id(3);
    coord.register_node(root, None, DispatchNodeData { handlers: true, ..Default::default() });
    coord.register_node(parent, Some(root), DispatchNodeData { handlers: true, ..Default::default() });
    coord.register_node(child, Some(parent), DispatchNodeData::default());
    coord.handle_mouse_down(child, (10.0, 10.0), false);
    let (_, click) = coord.handle_mouse_up(Some(child), true, 0, false);
    assert_eq!(click, Some((child, 1)));
    assert_eq!(coord.dispatch_tree().first_handler(child, |h: &bool| *h), Some(parent));
    assert_eq!(coord.dispatch_tree().first_handler(root, |h: &bool| *h), Some(root));
    assert_eq!(coord.dispatch_tree().first_handler(child, |_h: &bool| false), None);
}
