use velox::a11y_text::{a11y_container_text, a11y_node_text, join_text_fragments};
use velox::editable::CursorDirection;
use velox::input::{apply_input, input_is_allowed, pending_for_key, InputHandle, PendingInput};
use velox::key::{Key, Modifiers};
use velox::selection::TextSelection;

#[test]
fn input_handle_value_actions_queue_pending_updates() {
    let mut handle = InputHandle::new();

    handle.set_text("Hello".into());
    handle.select_all();
    handle.replace_selected_text("World".into());
    handle.set_selection(TextSelection { anchor: 1, focus: 3 });

    let pending = handle.pending();
    assert!(matches!(pending[0], PendingInput::SetText(ref s) if s == "Hello"));
    assert!(matches!(pending[1], PendingInput::SelectAll));
    assert!(matches!(pending[2], PendingInput::ReplaceSelectedText(ref s) if s == "World"));
    assert!(matches!(
        pending[3],
        PendingInput::SetSelection(TextSelection { anchor: 1, focus: 3 })
    ));
}

#[test]
fn input_handle_persists_text() {
    let mut handle = InputHandle::new();
    handle.ensure_editable(false, None);
    handle.apply(PendingInput::Text("Hi".into()));
    assert_eq!(handle.text(), "Hi");
}

#[test]
fn pending_events_queued_via_key_handler() {
    let mut handle = InputHandle::new();
    handle.handle_key(Key::A, Modifiers::empty(), Some("a"), false);
    let pending = handle.pending();
    assert_eq!(pending.len(), 1);
    assert!(matches!(pending[0], PendingInput::Text(ref s) if s == "a"));
}

#[test]
fn focus_handler_updates_handle() {
    let mut handle = InputHandle::new();
    handle.set_focused(true);
    assert!(handle.is_focused());
    handle.set_focused(false);
    assert!(!handle.is_focused());
}

#[test]
fn key_mapping_for_editing_keys() {
    let shift = Modifiers::shift();
    assert!(matches!(pending_for_key(Key::Backspace, Modifiers::empty(), None, false)[..], [PendingInput::Backspace]));
    assert!(matches!(pending_for_key(Key::Delete, Modifiers::empty(), None, false)[..], [PendingInput::Delete]));
    assert!(matches!(
        pending_for_key(Key::ArrowLeft, shift, None, false)[..],
        [PendingInput::MoveCursor(CursorDirection::Left, true)]
    ));
    assert!(matches!(
        pending_for_key(Key::End, Modifiers::ctrl(), None, false)[..],
        [PendingInput::MoveCursor(CursorDirection::End, false)]
    ));
    assert!(pending_for_key(Key::Enter, Modifiers::empty(), None, false).is_empty());
    assert!(matches!(
        pending_for_key(Key::Enter, Modifiers::empty(), None, true)[..],
        [PendingInput::Text(ref s)] if s == "\n"
    ));
    let typed = pending_for_key(Key::A, Modifiers::empty(), Some("a\u{7}é"), false);
    assert_eq!(typed.len(), 2);
    assert!(matches!(typed[1], PendingInput::Text(ref s) if s == "é"));
}

#[test]
fn ensure_editable_uses_initial_value_once() {
    let mut handle = InputHandle::new();
    assert_eq!(handle.text(), "");
    assert_eq!(handle.selection(), TextSelection::collapsed(0));
    handle.ensure_editable(false, Some("seed"));
    assert_eq!(handle.text(), "seed");
    assert_eq!(handle.selection(), TextSelection::collapsed(4));
    handle.ensure_editable(false, Some("other"));
    assert_eq!(handle.text(), "seed");
}

#[test]
fn queued_edits_apply_in_order() {
    let mut handle = InputHandle::new();
    handle.ensure_editable(false, None);
    handle.set_text("Hello".into());
    handle.select_all();
    handle.replace_selected_text("World".into());
    handle.handle_key(Key::Backspace, Modifiers::empty(), None, false);
    handle.handle_key(Key::Home, Modifiers::empty(), None, false);
    handle.handle_key(Key::Delete, Modifiers::empty(), None, false);
    let mut changed = 0;
    for ev in handle.take_pending() {
        let allowed = input_is_allowed(handle.editable().unwrap(), &ev);
        assert!(allowed);
        if handle.apply(ev) {
            changed += 1;
        }
    }
    assert_eq!(handle.text(), "orl");
    assert_eq!(changed, 4);
    assert!(handle.pending().is_empty());
}

#[test]
fn invalid_selection_blocks_edits() {
    let mut handle = InputHandle::new();
    handle.ensure_editable(false, Some("日本"));
    handle.apply(PendingInput::SetSelection(TextSelection { anchor: 1, focus: 1 }));
    let e = handle.editable().unwrap();
    assert!(!input_is_allowed(e, &PendingInput::Backspace));
    assert!(input_is_allowed(e, &PendingInput::SelectAll));
    assert!(input_is_allowed(e, &PendingInput::Text(String::new())));
}

#[test]
fn apply_input_directly_on_editable() {
    let mut e = velox::editable::EditableText::new(true);
    assert!(apply_input(&mut e, PendingInput::Text("ab".into())));
    assert!(!apply_input(&mut e, PendingInput::MoveCursor(CursorDirection::Left, true)));
    assert_eq!(e.selection(), TextSelection { anchor: 2, focus: 1 });
}

#[test]
fn join_fragments_trims_and_skips_empty() {
    let joined = join_text_fragments(vec![
        "  Hello ".to_string(),
        "\t\n".to_string(),
        "world".to_string(),
        String::new(),
        " again\u{3000}".to_string(),
    ]);
    assert_eq!(joined, "Hello world again");
    assert_eq!(join_text_fragments(vec![]), "");
}

#[test]
fn apply_pending_drains_in_order_and_reports_text_edits() {
    let mut handle = InputHandle::new();
    handle.set_text("Hello".into());
    handle.select_all();
    handle.replace_selected_text("World".into());
    handle.handle_key(Key::Home, Modifiers::empty(), None, false);
    handle.handle_key(Key::Delete, Modifiers::empty(), None, false);
    assert!(!handle.apply_pending());
    assert_eq!(handle.pending().len(), 5);
    handle.ensure_editable(false, None);
    assert!(handle.apply_pending());
    assert_eq!(handle.text(), "orld");
    assert!(handle.pending().is_empty());
}

#[test]
fn apply_pending_with_only_moves_reports_no_change() {
    let mut handle = InputHandle::new();
    handle.ensure_editable(false, Some("abc"));
    handle.handle_key(Key::ArrowLeft, Modifiers::empty(), None, false);
    handle.select_all();
    assert!(!handle.apply_pending());
    assert_eq!(handle.selection(), TextSelection { anchor: 0, focus: 3 });
}

#[test]
fn apply_before_layout_keeps_the_edit_queued() {
    let mut handle = InputHandle::new();
    assert!(!handle.apply(PendingInput::Text("x".into())));
    assert_eq!(handle.pending().len(), 1);
    handle.ensure_editable(false, None);
    assert!(handle.apply_pending());
    assert_eq!(handle.text(), "x");
}

#[test]
fn new_editable_has_caret_at_end_and_no_composition() {
    let mut handle = InputHandle::new();
    handle.ensure_editable(true, Some("h\u{e9}"));
    let e = handle.editable().unwrap();
    assert_eq!(e.selection(), TextSelection::collapsed(3));
    assert!(!e.composition().is_composing());
    let mut empty = InputHandle::new();
    empty.ensure_editable(false, None);
    assert_eq!(empty.selection(), TextSelection::collapsed(0));
}

#[test]
fn accessible_value_prefers_text_and_drops_empty() {
    let mut handle = InputHandle::new();
    assert_eq!(handle.accessible_value(Some("seed".into())), Some("seed".to_string()));
    assert_eq!(handle.accessible_value(Some(String::new())), None);
    assert_eq!(handle.accessible_value(None), None);
    handle.ensure_editable(false, None);
    assert_eq!(handle.accessible_value(Some("seed".into())), None);
    handle.apply(PendingInput::Text("hi".into()));
    assert_eq!(handle.accessible_value(None), Some("hi".to_string()));
}

#[test]
fn commit_without_composition_ignores_bad_selection() {
    let mut e = velox::editable::EditableText::new(false);
    e.set_text("ab");
    e.set_selection(TextSelection { anchor: 0, focus: 9 });
    e.commit_composition();
    assert_eq!(e.text(), "ab");
    assert_eq!(e.selection(), TextSelection { anchor: 0, focus: 9 });
}

#[test]
fn node_without_label_takes_child_text() {
    let (label, text) = a11y_node_text(None, None, vec![" Save ".into(), "".into(), "file".into()]);
    assert_eq!(label, Some("Save file".to_string()));
    assert_eq!(text, "Save file");
    let (label, text) = a11y_node_text(Some("OK".into()), None, vec!["ignored".into()]);
    assert_eq!(label, Some("OK".to_string()));
    assert_eq!(text, "OK");
    let (label, text) = a11y_node_text(None, Some("value".into()), vec!["  ".into()]);
    assert_eq!(label, None);
    assert_eq!(text, "value");
    let (label, text) = a11y_node_text(None, None, vec![]);
    assert_eq!(label, None);
    assert_eq!(text, "");
}

#[test]
fn container_text_joins_own_and_child_text() {
    assert_eq!(a11y_container_text(Some(" Title ".into()), vec!["a".into(), "b".into()]), "Title a b");
    assert_eq!(a11y_container_text(Some("   ".into()), vec!["a".into()]), "a");
    assert_eq!(a11y_container_text(None, vec![]), "");
}
