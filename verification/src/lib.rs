//! Verified core of a desktop UI toolkit: text editing state, undo history,
//! selections, focus and hover tracking, event dispatch trees and input queues.

pub mod active;
pub mod bidi;
pub mod composition;
pub mod editable;
pub mod hover;
pub mod node_id;
pub mod selection;
pub mod style;
pub mod text_attrs;
pub mod text_lines;
pub mod undo;
pub mod utf8_text;
pub mod focus;
pub mod dispatch;
pub mod cursor;
pub mod drag;
pub mod key;
pub mod input;
pub mod arena;
pub mod a11y_text;
pub mod element_kinds;
pub mod event_result;
pub mod keymap;
pub mod coordinator;
pub mod child_matching;
pub mod slot_tree;
