use velox::bidi::{paragraph_direction, unicode_bidi_category, BidiCategory, ParagraphDirection};
use velox::composition::CompositionState;
use velox::editable::{next_char_boundary, prev_char_boundary, CursorDirection, EditableText};
use velox::selection::{Affinity, TextPosition, TextSelection};
use velox::text_attrs::{GlyphContentType, RasterizedGlyph};
use velox::text_lines::{get_slice, line_start_offsets, run_span, run_spans};
use velox::undo::{EditCommand, UndoStack};

#[test]
fn english_is_ltr() {
    assert_eq!(paragraph_direction("Hello world"), ParagraphDirection::LeftToRight);
}

#[test]
fn arabic_is_rtl() {
    assert_eq!(paragraph_direction("مرحبا"), ParagraphDirection::RightToLeft);
}

#[test]
fn hebrew_is_rtl() {
    assert_eq!(paragraph_direction("שלום"), ParagraphDirection::RightToLeft);
}

#[test]
fn empty_defaults_to_ltr() {
    assert_eq!(paragraph_direction(""), ParagraphDirection::LeftToRight);
}

#[test]
fn numbers_only_defaults_to_ltr() {
    assert_eq!(paragraph_direction("12345"), ParagraphDirection::LeftToRight);
}

#[test]
fn mixed_follows_first_strong() {
    assert_eq!(paragraph_direction("مرحبا Hello"), ParagraphDirection::RightToLeft);
    assert_eq!(paragraph_direction("Hello مرحبا"), ParagraphDirection::LeftToRight);
}

#[test]
fn bidi_category_ranges() {
    assert_eq!(unicode_bidi_category('A'), Some(BidiCategory::StrongLtr));
    assert_eq!(unicode_bidi_category('é'), Some(BidiCategory::StrongLtr));
    assert_eq!(unicode_bidi_category('א'), Some(BidiCategory::StrongRtl));
    assert_eq!(unicode_bidi_category('ﻼ'), Some(BidiCategory::StrongRtl));
    assert_eq!(unicode_bidi_category('7'), None);
    assert_eq!(unicode_bidi_category(' '), None);
}

#[test]
fn punctuation_then_hebrew_is_rtl() {
    assert_eq!(paragraph_direction("... 42 שלום"), ParagraphDirection::RightToLeft);
}

#[test]
fn line_start_offsets_handle_mixed_line_endings() {
    assert_eq!(line_start_offsets("A\nB"), vec![0, 2]);
    assert_eq!(line_start_offsets("A\r\nB"), vec![0, 3]);
    assert_eq!(line_start_offsets("A\rB"), vec![0, 2]);
    assert_eq!(line_start_offsets("A\n\rB"), vec![0, 3]);
    assert_eq!(line_start_offsets("A\r\n"), vec![0, 3]);
}

#[test]
fn line_start_offsets_of_empty_and_blank_lines() {
    assert_eq!(line_start_offsets(""), vec![0]);
    assert_eq!(line_start_offsets("\n\n"), vec![0, 1, 2]);
    assert_eq!(line_start_offsets("One\nTwo"), vec![0, 4]);
    assert_eq!(line_start_offsets("One\r\nTwo"), vec![0, 5]);
}

#[test]
fn initially_not_composing() {
    let state = CompositionState::default();
    assert!(!state.is_composing());
}

#[test]
fn set_preedit_activates_composing() {
    let mut state = CompositionState::default();
    state.set_preedit("にほ".into(), Some((0, 6)));
    assert!(state.is_composing());
    assert_eq!(state.preedit_text.as_deref(), Some("にほ"));
}

#[test]
fn commit_returns_text_and_clears() {
    let mut state = CompositionState::default();
    state.set_preedit("日本語".into(), None);
    let committed = state.commit();
    assert_eq!(committed.as_deref(), Some("日本語"));
    assert!(!state.is_composing());
}

#[test]
fn clear_resets_state() {
    let mut state = CompositionState::default();
    state.set_preedit("test".into(), Some((0, 4)));
    state.clear();
    assert!(!state.is_composing());
}

#[test]
fn commit_without_preedit_returns_none() {
    let mut state = CompositionState::default();
    assert_eq!(state.commit(), None);
    assert_eq!(state.cursor_range, None);
}

#[test]
fn collapsed_selection() {
    let sel = TextSelection::collapsed(5);
    assert!(sel.is_collapsed());
    assert_eq!(sel.range(), (5, 5));
}

#[test]
fn forward_selection() {
    let sel = TextSelection { anchor: 2, focus: 8 };
    assert!(!sel.is_collapsed());
    assert_eq!(sel.range(), (2, 8));
}

#[test]
fn backward_selection() {
    let sel = TextSelection { anchor: 10, focus: 3 };
    assert!(!sel.is_collapsed());
    assert_eq!(sel.range(), (3, 10));
}

#[test]
fn selected_text_extracts_range() {
    let sel = TextSelection { anchor: 0, focus: 5 };
    assert_eq!(sel.selected_text("Hello, world!"), "Hello");
}

#[test]
fn selected_text_backward() {
    let sel = TextSelection { anchor: 7, focus: 0 };
    assert_eq!(sel.selected_text("Hello, world!"), "Hello, ");
}

#[test]
fn collapsed_selected_text_is_empty() {
    let sel = TextSelection::collapsed(3);
    assert_eq!(sel.selected_text("Hello"), "");
}

#[test]
fn selected_text_clamps_to_end() {
    let sel = TextSelection { anchor: 2, focus: 40 };
    assert_eq!(sel.selected_text("Hello"), "llo");
}

#[test]
fn text_position_defaults_to_before() {
    let p = TextPosition::new(4);
    assert_eq!(p.index, 4);
    assert_eq!(p.affinity, Affinity::Before);
    assert_eq!(TextSelection::default(), TextSelection::collapsed(0));
}

#[test]
fn glyph_color_content() {
    let g = RasterizedGlyph {
        width: 2,
        height: 2,
        left: 0,
        top: 0,
        data: vec![0; 16],
        content_type: GlyphContentType::Color,
    };
    assert!(g.is_color());
    let m = RasterizedGlyph { content_type: GlyphContentType::Mask, ..g };
    assert!(!m.is_color());
}

fn insert(position: usize, text: &str) -> EditCommand {
    EditCommand::Insert { position, text: text.into() }
}

#[test]
fn insert_and_undo() {
    let mut stack = UndoStack::new();
    stack.push(insert(0, "hello"));
    let cmd = stack.undo();
    assert!(cmd.is_some());
    match cmd.unwrap() {
        EditCommand::Insert { position, text } => {
            assert_eq!(position, 0);
            assert_eq!(text, "hello");
        }
        _ => panic!("expected Insert"),
    }
}

#[test]
fn undo_undo_then_redo() {
    let mut stack = UndoStack::new();
    stack.push(insert(0, "hi"));
    stack.undo();
    let cmd = stack.redo();
    assert!(cmd.is_some());
}

#[test]
fn push_after_undo_clears_redo() {
    let mut stack = UndoStack::new();
    stack.push(insert(0, "a"));
    stack.push(insert(1, "b"));
    stack.undo();
    stack.push(insert(1, "c"));
    let redo = stack.redo();
    assert!(redo.is_none());
}

#[test]
fn coalesce_consecutive_inserts() {
    let mut stack = UndoStack::new();
    stack.push_coalesced(insert(0, "h"));
    stack.push_coalesced(insert(1, "e"));
    stack.push_coalesced(insert(2, "l"));
    let cmd = stack.undo();
    assert!(cmd.is_some());
    match cmd.unwrap() {
        EditCommand::Insert { position, text } => {
            assert_eq!(position, 0);
            assert_eq!(text, "hel");
        }
        _ => panic!("expected coalesced Insert"),
    }
    assert!(stack.undo().is_none());
}

#[test]
fn delete_breaks_coalescing() {
    let mut stack = UndoStack::new();
    stack.push_coalesced(insert(0, "a"));
    stack.push(EditCommand::Delete { position: 0, text: "a".into() });
    assert!(stack.undo().is_some());
    assert!(stack.undo().is_some());
    assert!(stack.undo().is_none());
}

#[test]
fn empty_undo_returns_none() {
    let mut stack = UndoStack::new();
    assert!(stack.undo().is_none());
}

#[test]
fn stack_cap() {
    let mut stack = UndoStack::new();
    for i in 0..150 {
        stack.push(insert(i, "x"));
    }
    let mut count = 0;
    while stack.undo().is_some() {
        count += 1;
    }
    assert!(count <= 100);
}

#[test]
fn stack_cap_keeps_newest() {
    let mut stack = UndoStack::new();
    for i in 0..150 {
        stack.push(insert(i, "x"));
    }
    let mut positions = Vec::new();
    while let Some(EditCommand::Insert { position, .. }) = stack.undo() {
        positions.push(position);
    }
    assert_eq!(positions.len(), 100);
    assert_eq!(positions[0], 149);
    assert_eq!(positions[99], 50);
}

#[test]
fn non_adjacent_inserts_do_not_coalesce() {
    let mut stack = UndoStack::new();
    stack.push_coalesced(insert(0, "ab"));
    stack.push_coalesced(insert(5, "c"));
    assert!(matches!(stack.undo(), Some(EditCommand::Insert { position: 5, .. })));
    assert!(matches!(stack.undo(), Some(EditCommand::Insert { position: 0, .. })));
}

#[test]
fn undo_redo_restores_stacks() {
    let mut stack = UndoStack::new();
    stack.push(insert(0, "a"));
    stack.push(insert(1, "b"));
    stack.undo();
    stack.redo();
    assert!(matches!(stack.undo(), Some(EditCommand::Insert { position: 1, .. })));
    assert!(matches!(stack.undo(), Some(EditCommand::Insert { position: 0, .. })));
    assert!(stack.undo().is_none());
}

fn make_editable(text: &str) -> EditableText {
    let mut e = EditableText::new(false);
    if !text.is_empty() {
        e.set_text(text);
    }
    e
}

#[test]
fn insert_char() {
    let mut e = make_editable("");
    e.insert_char('H');
    e.insert_char('i');
    assert_eq!(e.text(), "Hi");
    assert_eq!(e.selection().focus, 2);
}

#[test]
fn delete_backward() {
    let mut e = make_editable("Hello");
    e.move_cursor_to(5);
    e.delete_backward();
    assert_eq!(e.text(), "Hell");
}

#[test]
fn delete_forward() {
    let mut e = make_editable("Hello");
    e.move_cursor_to(0);
    e.delete_forward();
    assert_eq!(e.text(), "ello");
}

#[test]
fn delete_selection() {
    let mut e = make_editable("Hello World");
    e.set_selection(TextSelection { anchor: 5, focus: 11 });
    e.delete_backward();
    assert_eq!(e.text(), "Hello");
}

#[test]
fn insert_replaces_selection() {
    let mut e = make_editable("Hello World");
    e.set_selection(TextSelection { anchor: 0, focus: 5 });
    e.insert_char('Y');
    assert_eq!(e.text(), "Y World");
}

#[test]
fn select_all() {
    let mut e = make_editable("Hello");
    e.select_all();
    let sel = e.selection();
    assert_eq!(sel.anchor, 0);
    assert_eq!(sel.focus, 5);
}

#[test]
fn insert_text_paste() {
    let mut e = make_editable("AB");
    e.move_cursor_to(1);
    e.insert_text("xyz");
    assert_eq!(e.text(), "AxyzB");
    assert_eq!(e.selection().focus, 4);
}

#[test]
fn undo_insert() {
    let mut e = make_editable("");
    e.insert_char('A');
    e.insert_char('B');
    e.undo();
    assert_eq!(e.text(), "");
}

#[test]
fn editable_undo_then_redo() {
    let mut e = make_editable("");
    e.insert_char('A');
    e.insert_char('B');
    e.undo();
    e.redo();
    assert_eq!(e.text(), "AB");
}

#[test]
fn move_cursor_left_right() {
    let mut e = make_editable("Hello");
    e.move_cursor_to(3);
    e.move_cursor(CursorDirection::Left, false);
    assert_eq!(e.selection().focus, 2);
    e.move_cursor(CursorDirection::Right, false);
    assert_eq!(e.selection().focus, 3);
}

#[test]
fn move_cursor_with_shift_extends_selection() {
    let mut e = make_editable("Hello");
    e.move_cursor_to(2);
    e.move_cursor(CursorDirection::Right, true);
    e.move_cursor(CursorDirection::Right, true);
    let sel = e.selection();
    assert_eq!(sel.anchor, 2);
    assert_eq!(sel.focus, 4);
}

#[test]
fn home_end() {
    let mut e = make_editable("Hello");
    e.move_cursor_to(3);
    e.move_cursor(CursorDirection::Home, false);
    assert_eq!(e.selection().focus, 0);
    e.move_cursor(CursorDirection::End, false);
    assert_eq!(e.selection().focus, 5);
}

#[test]
fn cursor_clamps_at_boundaries() {
    let mut e = make_editable("Hi");
    e.move_cursor_to(0);
    e.move_cursor(CursorDirection::Left, false);
    assert_eq!(e.selection().focus, 0);
    e.move_cursor_to(2);
    e.move_cursor(CursorDirection::Right, false);
    assert_eq!(e.selection().focus, 2);
}

#[test]
fn multibyte_cursor_and_deletion() {
    let mut e = make_editable("aé日b");
    assert_eq!(e.text().len(), 7);
    e.move_cursor_to(7);
    e.move_cursor(CursorDirection::Left, false);
    assert_eq!(e.selection().focus, 6);
    e.move_cursor(CursorDirection::Left, false);
    assert_eq!(e.selection().focus, 3);
    e.delete_backward();
    assert_eq!(e.text(), "a日b");
    assert_eq!(e.selection().focus, 1);
    e.delete_forward();
    assert_eq!(e.text(), "ab");
    e.undo();
    assert_eq!(e.text(), "a日b");
    e.undo();
    assert_eq!(e.text(), "aé日b");
    assert_eq!(e.selection().focus, 3);
}

#[test]
fn char_boundaries_skip_continuation_bytes() {
    let s = "aé日";
    assert_eq!(prev_char_boundary(s, 6), 3);
    assert_eq!(prev_char_boundary(s, 5), 3);
    assert_eq!(prev_char_boundary(s, 0), 0);
    assert_eq!(next_char_boundary(s, 1), 3);
    assert_eq!(next_char_boundary(s, 3), 6);
    assert_eq!(next_char_boundary(s, 6), 6);
}

#[test]
fn typed_characters_undo_together() {
    let mut e = make_editable("ab");
    e.move_cursor_to(1);
    for ch in "xyz".chars() {
        e.insert_char(ch);
    }
    assert_eq!(e.text(), "axyzb");
    e.undo();
    assert_eq!(e.text(), "ab");
    assert_eq!(e.selection().focus, 1);
    e.redo();
    assert_eq!(e.text(), "axyzb");
    assert_eq!(e.selection().focus, 4);
}

#[test]
fn paste_over_selection_undoes_in_two_steps() {
    let mut e = make_editable("Hello World");
    e.set_selection(TextSelection { anchor: 6, focus: 11 });
    e.insert_text("There");
    assert_eq!(e.text(), "Hello There");
    e.undo();
    assert_eq!(e.text(), "Hello ");
    e.undo();
    assert_eq!(e.text(), "Hello World");
    assert_eq!(e.selection().focus, 11);
}

#[test]
fn set_text_clears_history() {
    let mut e = make_editable("x");
    e.insert_char('y');
    e.set_text("new");
    e.undo();
    assert_eq!(e.text(), "new");
    assert_eq!(e.selection(), TextSelection::collapsed(3));
}

#[test]
fn selected_text_of_editable() {
    let mut e = make_editable("Hello World");
    e.set_selection(TextSelection { anchor: 11, focus: 6 });
    assert_eq!(e.selected_text(), "World");
}

#[test]
fn commit_composition_inserts_preedit() {
    let mut e = make_editable("A");
    e.composition_mut().set_preedit("日本".into(), None);
    assert!(e.composition().is_composing());
    e.commit_composition();
    assert_eq!(e.text(), "A日本");
    assert!(!e.composition().is_composing());
    e.undo();
    assert_eq!(e.text(), "A");
}

#[test]
fn delete_forward_past_end_is_noop() {
    let mut e = make_editable("Hi");
    e.set_selection(TextSelection::collapsed(9));
    e.delete_forward();
    assert_eq!(e.text(), "Hi");
}

#[test]
fn get_slice_follows_char_boundaries() {
    assert_eq!(get_slice("h\u{e9}llo", 1, 3), Some("\u{e9}"));
    assert_eq!(get_slice("h\u{e9}llo", 1, 2), None);
    assert_eq!(get_slice("hello", 3, 1), None);
    assert_eq!(get_slice("hello", 2, 9), None);
    assert_eq!(get_slice("hello", 5, 5), Some(""));
}

#[test]
fn run_span_offsets_second_line_after_crlf() {
    let text = "One\r\nTwo";
    let starts = line_start_offsets(text);
    let first = run_span(&starts, text.len(), 0, Some((0, 3)), 0, "One");
    assert_eq!(first.byte_start, 0);
    assert_eq!(first.text, "One");
    assert_eq!(first.consumed, 3);
    let second = run_span(&starts, text.len(), 1, Some((0, 3)), 0, "Two");
    assert_eq!(second.byte_start, 5);
    assert_eq!(second.text, "Two");
    assert_eq!(second.consumed, 3);
}

#[test]
fn run_span_without_glyphs_starts_where_line_was_consumed() {
    let starts = line_start_offsets("One\nTwo");
    let span = run_span(&starts, 7, 1, None, 2, "Two");
    assert_eq!(span.byte_start, 6);
    assert_eq!(span.text, "");
    assert_eq!(span.consumed, 2);
    let past = run_span(&starts, 7, 4, None, 9, "Two");
    assert_eq!(past.byte_start, 10);
    assert_eq!(past.consumed, 9);
}

#[test]
fn run_span_with_glyphs_off_boundaries_shows_nothing() {
    let starts = vec![0usize];
    let span = run_span(&starts, 6, 0, Some((1, 2)), 0, "h\u{e9}llo");
    assert_eq!(span.byte_start, 1);
    assert_eq!(span.text, "");
    assert_eq!(span.consumed, 2);
}

#[test]
fn run_spans_restart_consumed_on_each_line() {
    let text = "One\nTwo";
    let starts = line_start_offsets(text);
    let runs = vec![
        (0usize, Some((0usize, 3usize)), "One".to_string()),
        (1, Some((0, 2)), "Two".to_string()),
        (1, None, "Two".to_string()),
    ];
    let spans = run_spans(&starts, text.len(), &runs);
    assert_eq!(spans.len(), 3);
    assert_eq!((spans[0].byte_start, spans[0].text.as_str(), spans[0].consumed), (0, "One", 3));
    assert_eq!((spans[1].byte_start, spans[1].text.as_str(), spans[1].consumed), (4, "Tw", 2));
    assert_eq!((spans[2].byte_start, spans[2].text.as_str(), spans[2].consumed), (6, "", 2));
}

#[test]
fn run_spans_without_runs_is_one_empty_span() {
    let spans = run_spans(&vec![0usize], 0, &Vec::new());
    assert_eq!(spans.len(), 1);
    assert_eq!((spans[0].byte_start, spans[0].text.as_str(), spans[0].consumed), (0, "", 0));
}
