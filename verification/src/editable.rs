//! An editable text: the text, its selection, its composition state and the undo
//! history that ties them together.

use vstd::prelude::*;
use vstd::string::StringSliceAdditionalSpecFns;
use vstd::utf8::*;

use crate::composition::CompositionState;
use crate::selection::TextSelection;
use crate::undo::{
    capped_push, coalesced_push, continues_insert, CommandView, EditCommand, UndoStack,
    MAX_UNDO_DEPTH,
};
use crate::utf8_text::{
    byte_len, lemma_boundary_concat_left, lemma_boundary_in_range, lemma_boundary_prefix,
    lemma_boundary_suffix, lemma_encode_concat, lemma_splice_valid, slice_str, sliceable,
    splice_bytes, splice_str, string_of_char, utf8_bytes,
};

verus! {

broadcast use {
    vstd::utf8::encode_utf8_valid_utf8,
    vstd::utf8::is_char_boundary_start_end_of_seq,
};

/// Directions in which the caret can be moved.
#[derive(Debug, Clone, Copy, PartialEq, Eq, Structural)]
pub enum CursorDirection {
    Left,
    Right,
    Up,
    Down,
    Home,
    End,
}

/// What an editable text is: its bytes, its selection and its two histories.
pub struct EditorView {
    pub text: Seq<u8>,
    pub selection: TextSelection,
    pub undo: Seq<CommandView>,
    pub redo: Seq<CommandView>,
}

/// Whether the strings of a command are valid UTF-8.
pub open spec fn command_texts_valid(c: CommandView) -> bool {
    match c {
        CommandView::Insert { text, .. } => valid_utf8(text),
        CommandView::Delete { text, .. } => valid_utf8(text),
        CommandView::Replace { old, new, .. } => valid_utf8(old) && valid_utf8(new),
    }
}

/// Undoing a command replaces, at a position, some bytes by others:
/// `(position, bytes taken out, bytes put in)`.
pub open spec fn undo_splice(c: CommandView) -> (int, Seq<u8>, Seq<u8>) {
    match c {
        CommandView::Insert { position, text } => (position, text, Seq::empty()),
        CommandView::Delete { position, text } => (position, Seq::empty(), text),
        CommandView::Replace { position, old, new } => (position, new, old),
    }
}

/// Redoing a command replaces, at a position, some bytes by others:
/// `(position, bytes taken out, bytes put in)`.
pub open spec fn redo_splice(c: CommandView) -> (int, Seq<u8>, Seq<u8>) {
    match c {
        CommandView::Insert { position, text } => (position, Seq::empty(), text),
        CommandView::Delete { position, text } => (position, text, Seq::empty()),
        CommandView::Replace { position, old, new } => (position, old, new),
    }
}

/// Whether `removed` sits in `t` at `p`, between two character boundaries.
pub open spec fn can_splice(t: Seq<u8>, p: int, removed: Seq<u8>) -> bool {
    &&& 0 <= p
    &&& p + removed.len() <= t.len()
    &&& t.subrange(p, p + removed.len()) == removed
    &&& is_char_boundary(t, p)
    &&& is_char_boundary(t, p + removed.len())
}

/// `t` after a replacement `(position, taken out, put in)`.
pub open spec fn apply_splice(t: Seq<u8>, sp: (int, Seq<u8>, Seq<u8>)) -> Seq<u8> {
    splice_bytes(t, sp.0, sp.0 + sp.1.len(), sp.2)
}

/// Whether the commands, undone from the last one down, each find in the text what
/// they take out.
pub open spec fn undoable(cmds: Seq<CommandView>, t: Seq<u8>) -> bool
    decreases cmds.len(),
{
    if cmds.len() == 0 {
        true
    } else {
        let c = cmds.last();
        &&& command_texts_valid(c)
        &&& can_splice(t, undo_splice(c).0, undo_splice(c).1)
        &&& undoable(cmds.drop_last(), apply_splice(t, undo_splice(c)))
    }
}

/// Whether the commands, redone from the last one down, each find in the text what
/// they take out.
pub open spec fn redoable(cmds: Seq<CommandView>, t: Seq<u8>) -> bool
    decreases cmds.len(),
{
    if cmds.len() == 0 {
        true
    } else {
        let c = cmds.last();
        &&& command_texts_valid(c)
        &&& can_splice(t, redo_splice(c).0, redo_splice(c).1)
        &&& redoable(cmds.drop_last(), apply_splice(t, redo_splice(c)))
    }
}

/// A selection holding nothing, at `p`.
pub open spec fn caret_at(p: int) -> TextSelection {
    TextSelection { anchor: p as usize, focus: p as usize }
}

impl EditorView {
    /// The text is valid UTF-8 and both histories can be replayed on it.
    pub open spec fn consistent(&self) -> bool {
        &&& valid_utf8(self.text)
        &&& undoable(self.undo, self.text)
        &&& redoable(self.redo, self.text)
        &&& self.undo.len() + self.redo.len() <= MAX_UNDO_DEPTH
    }

    pub open spec fn sel_start(&self) -> int {
        self.selection.spec_range().0 as int
    }

    pub open spec fn sel_end(&self) -> int {
        self.selection.spec_range().1 as int
    }

    /// Both ends of the selection are character boundaries of the text.
    pub open spec fn selection_valid(&self) -> bool {
        sliceable(self.text, self.sel_start(), self.sel_end())
    }

    /// The undo history after the selected bytes, if any, are deleted.
    pub open spec fn history_without_selection(&self) -> Seq<CommandView> {
        if self.sel_start() == self.sel_end() {
            self.undo
        } else {
            capped_push(
                self.undo,
                CommandView::Delete {
                    position: self.sel_start(),
                    text: self.text.subrange(self.sel_start(), self.sel_end()),
                },
            )
        }
    }

    /// The state after the bytes `[start, end)` are deleted and the deletion recorded;
    /// the caret goes to `start`.
    pub open spec fn range_deleted(&self, start: int, end: int) -> EditorView {
        EditorView {
            text: splice_bytes(self.text, start, end, Seq::empty()),
            selection: caret_at(start),
            undo: capped_push(
                self.undo,
                CommandView::Delete { position: start, text: self.text.subrange(start, end) },
            ),
            redo: Seq::empty(),
        }
    }

    /// The state after the selected bytes are deleted (nothing happens to a collapsed
    /// selection).
    pub open spec fn selection_deleted(&self) -> EditorView {
        if self.sel_start() == self.sel_end() {
            *self
        } else {
            self.range_deleted(self.sel_start(), self.sel_end())
        }
    }

    /// The state after `ins` replaces the selection; with `coalesce`, an insertion that
    /// continues the previous one is merged into it.
    pub open spec fn typed(&self, ins: Seq<u8>, coalesce: bool) -> EditorView {
        let h = self.history_without_selection();
        let cmd = CommandView::Insert { position: self.sel_start(), text: ins };
        EditorView {
            text: splice_bytes(self.text, self.sel_start(), self.sel_end(), ins),
            selection: caret_at(self.sel_start() + ins.len()),
            undo: if coalesce {
                coalesced_push(h, cmd)
            } else {
                capped_push(h, cmd)
            },
            redo: Seq::empty(),
        }
    }

    /// The state after the last edit is undone.
    pub open spec fn undone(&self) -> EditorView {
        if self.undo.len() == 0 {
            *self
        } else {
            let c = self.undo.last();
            let sp = undo_splice(c);
            EditorView {
                text: apply_splice(self.text, sp),
                selection: caret_at(sp.0 + sp.2.len()),
                undo: self.undo.drop_last(),
                redo: self.redo.push(c),
            }
        }
    }

    /// The state after the last undone edit is redone.
    pub open spec fn redone(&self) -> EditorView {
        if self.redo.len() == 0 {
            *self
        } else {
            let c = self.redo.last();
            let sp = redo_splice(c);
            EditorView {
                text: apply_splice(self.text, sp),
                selection: caret_at(sp.0 + sp.2.len()),
                undo: self.undo.push(c),
                redo: self.redo.drop_last(),
            }
        }
    }
}

/// `p` is the last character boundary of `t` before `index`.
pub open spec fn is_prev_boundary(t: Seq<u8>, index: int, p: int) -> bool {
    &&& p < index
    &&& is_char_boundary(t, p)
    &&& forall|j: int| p < j < index ==> !is_char_boundary(t, j)
}

/// `n` is the first character boundary of `t` after `index`.
pub open spec fn is_next_boundary(t: Seq<u8>, index: int, n: int) -> bool {
    &&& index < n
    &&& is_char_boundary(t, n)
    &&& forall|j: int| index < j < n ==> !is_char_boundary(t, j)
}

/// `new` is `old` after deleting backward: the selection if there is one, else the
/// character before the caret (nothing at the start of the text).
pub open spec fn backspaced(old: EditorView, new: EditorView) -> bool {
    if old.selection.anchor != old.selection.focus {
        new == old.selection_deleted()
    } else if old.selection.focus == 0 {
        new == old
    } else {
        let p = new.selection.focus as int;
        &&& is_prev_boundary(old.text, old.selection.focus as int, p)
        &&& new == old.range_deleted(p, old.selection.focus as int)
    }
}

/// `new` is `old` after deleting forward: the selection if there is one, else the
/// character after the caret (nothing at the end of the text).
pub open spec fn forward_deleted(old: EditorView, new: EditorView) -> bool {
    if old.selection.anchor != old.selection.focus {
        new == old.selection_deleted()
    } else if old.selection.focus >= old.text.len() {
        new == old
    } else {
        exists|n: int|
            {
                &&& is_next_boundary(old.text, old.selection.focus as int, n)
                &&& new == old.range_deleted(old.selection.focus as int, n)
            }
    }
}

/// `new` is `old` with the caret moved in `direction`, the anchor kept when extending.
pub open spec fn caret_moved(
    old: EditorView,
    new: EditorView,
    direction: CursorDirection,
    extend_selection: bool,
) -> bool {
    &&& new.text == old.text
    &&& new.undo == old.undo
    &&& new.redo == old.redo
    &&& new.selection.anchor == if extend_selection {
        old.selection.anchor
    } else {
        new.selection.focus
    }
    &&& moved_to(old.text, old.selection.focus as int, direction, new.selection.focus as int)
}

/// `to` is where the caret at `from` goes when moved in `direction` over `t`.
pub open spec fn moved_to(t: Seq<u8>, from: int, direction: CursorDirection, to: int) -> bool {
    match direction {
        CursorDirection::Left => if from == 0 {
            to == 0
        } else {
            is_prev_boundary(t, from, to)
        },
        CursorDirection::Right => if from >= t.len() {
            to == t.len()
        } else {
            is_next_boundary(t, from, to) && to <= t.len()
        },
        CursorDirection::Home => to == 0,
        CursorDirection::End => to == t.len(),
        CursorDirection::Up | CursorDirection::Down => to == from,
    }
}

/// Replacing at character boundaries can be reversed: the bytes put in can be taken out
/// again, which gives back the text.
pub proof fn lemma_splice_roundtrip(t: Seq<u8>, p: int, removed: Seq<u8>, ins: Seq<u8>)
    requires
        valid_utf8(t),
        valid_utf8(ins),
        can_splice(t, p, removed),
    ensures
        valid_utf8(apply_splice(t, (p, removed, ins))),
        can_splice(apply_splice(t, (p, removed, ins)), p, ins),
        apply_splice(apply_splice(t, (p, removed, ins)), (p, ins, removed)) == t,
{
    let t2 = apply_splice(t, (p, removed, ins));
    lemma_splice_valid(t, p, p + removed.len(), ins);
    assert(t2.subrange(p, p + ins.len()) =~= ins);
    let t3 = apply_splice(t2, (p, ins, removed));
    assert(t3 =~= t.subrange(0, p) + t.subrange(p, p + removed.len()) + t.subrange(
        p + removed.len(),
        t.len() as int,
    ));
    assert(t3 =~= t);
}

/// Forgetting the oldest command keeps a history replayable.
pub proof fn lemma_undoable_drop_first(cmds: Seq<CommandView>, t: Seq<u8>)
    requires
        undoable(cmds, t),
        cmds.len() > 0,
    ensures
        undoable(cmds.drop_first(), t),
    decreases cmds.len(),
{
    if cmds.len() == 1 {
        assert(cmds.drop_first() =~= Seq::<CommandView>::empty());
    } else {
        let c = cmds.last();
        lemma_undoable_drop_first(cmds.drop_last(), apply_splice(t, undo_splice(c)));
        assert(cmds.drop_first().last() == c);
        assert(cmds.drop_first().drop_last() =~= cmds.drop_last().drop_first());
    }
}

/// Pushing an undoable command on a replayable history, within the depth limit, keeps
/// it replayable.
pub proof fn lemma_undoable_capped_push(cmds: Seq<CommandView>, c: CommandView, t: Seq<u8>)
    requires
        command_texts_valid(c),
        can_splice(t, undo_splice(c).0, undo_splice(c).1),
        undoable(cmds, apply_splice(t, undo_splice(c))),
    ensures
        undoable(capped_push(cmds, c), t),
{
    assert(cmds.push(c).drop_last() =~= cmds);
    assert(cmds.push(c).last() == c);
    if cmds.push(c).len() > MAX_UNDO_DEPTH {
        lemma_undoable_drop_first(cmds.push(c), t);
    }
}

/// Undoing the last command and redoing it gives back the text and both histories.
pub proof fn lemma_redo_after_undo(v: EditorView)
    requires
        v.consistent(),
        v.undo.len() > 0,
    ensures
        v.undone().consistent(),
        v.undone().redone().text == v.text,
        v.undone().redone().undo == v.undo,
        v.undone().redone().redo == v.redo,
{
    let c = v.undo.last();
    let sp = undo_splice(c);
    lemma_splice_roundtrip(v.text, sp.0, sp.1, sp.2);
    let w = v.undone();
    assert(w.redo.last() == c);
    assert(w.redo.drop_last() =~= v.redo);
    assert(v.undo.drop_last().push(c) =~= v.undo);
}

/// Redoing the last undone command and undoing it gives back the text and both histories.
pub proof fn lemma_undo_after_redo(v: EditorView)
    requires
        v.consistent(),
        v.redo.len() > 0,
    ensures
        v.redone().consistent(),
        v.redone().undone().text == v.text,
        v.redone().undone().undo == v.undo,
        v.redone().undone().redo == v.redo,
{
    let c = v.redo.last();
    let sp = redo_splice(c);
    lemma_splice_roundtrip(v.text, sp.0, sp.1, sp.2);
    let w = v.redone();
    assert(w.undo.last() == c);
    assert(w.undo.drop_last() =~= v.undo);
    assert(v.redo.drop_last().push(c) =~= v.redo);
}

/// Deleting the selection first and then typing into the caret it leaves is typing
/// over the selection.
pub proof fn lemma_typed_after_deletion(v: EditorView, ins: Seq<u8>, coalesce: bool)
    requires
        v.consistent(),
        v.selection_valid(),
        valid_utf8(ins),
    ensures
        v.selection_deleted().selection_valid(),
        v.selection_deleted().selection.anchor == v.selection_deleted().selection.focus,
        v.selection_deleted().typed(ins, coalesce) == v.typed(ins, coalesce),
{
    let s = v.sel_start();
    let e = v.sel_end();
    if s != e {
        lemma_deleted_caret_valid(v, s, e);
        let w = v.selection_deleted();
        lemma_boundary_in_range(v.text, s);
        lemma_boundary_in_range(v.text, e);
        assert(w.typed(ins, coalesce).text =~= v.typed(ins, coalesce).text);
    }
}

/// After a deletion of `[start, end)` at character boundaries the caret at `start` is a
/// valid selection.
pub proof fn lemma_deleted_caret_valid(v: EditorView, start: int, end: int)
    requires
        v.consistent(),
        sliceable(v.text, start, end),
        start <= usize::MAX,
    ensures
        v.range_deleted(start, end).selection_valid(),
        v.range_deleted(start, end).selection.anchor == v.range_deleted(start, end).selection.focus,
        v.range_deleted(start, end).selection.focus == start,
{
    lemma_boundary_in_range(v.text, start);
    lemma_boundary_in_range(v.text, end);
    lemma_splice_valid(v.text, start, end, Seq::empty());
}

/// Typing over a selection and undoing gives back the text: one undo when the selection
/// was empty, two when text was selected (its deletion is recorded first).
pub proof fn lemma_undo_after_typing(v: EditorView, ins: Seq<u8>)
    requires
        v.consistent(),
        v.selection_valid(),
        valid_utf8(ins),
    ensures
        v.typed(ins, false).text.len() <= usize::MAX ==> v.typed(ins, false).selection_valid(),
        v.sel_start() == v.sel_end() ==> v.typed(ins, false).undone().text == v.text,
        v.sel_start() != v.sel_end() ==> v.typed(ins, false).undone().undone().text == v.text,
{
    let s = v.sel_start();
    let e = v.sel_end();
    let t = v.text;
    lemma_boundary_in_range(t, s);
    lemma_boundary_in_range(t, e);
    lemma_splice_valid(t, s, e, ins);
    let w = v.typed(ins, false);
    let h = v.history_without_selection();
    let cmd = CommandView::Insert { position: s, text: ins };
    assert(w.undo.last() == cmd);
    let t1 = splice_bytes(t, s, e, Seq::empty());
    assert(w.undone().text =~= t1);
    if s == e {
        assert(t1 =~= t);
    } else {
        let d = CommandView::Delete { position: s, text: t.subrange(s, e) };
        assert(h.last() == d);
        assert(w.undone().undo.last() == d);
        assert(w.undone().undone().text =~= t);
    }
}

/// Typing leaves the caret at a character boundary.
pub proof fn lemma_typed_caret_valid(v: EditorView, ins: Seq<u8>)
    requires
        v.consistent(),
        v.selection_valid(),
        valid_utf8(ins),
        v.typed(ins, true).text.len() <= usize::MAX,
    ensures
        v.typed(ins, true).selection_valid(),
{
    lemma_boundary_in_range(v.text, v.sel_start());
    lemma_boundary_in_range(v.text, v.sel_end());
    lemma_splice_valid(v.text, v.sel_start(), v.sel_end(), ins);
}

/// Deleting a range and undoing gives back the text.
pub proof fn lemma_undo_after_deletion(v: EditorView, start: int, end: int)
    requires
        v.consistent(),
        sliceable(v.text, start, end),
    ensures
        v.range_deleted(start, end).undone().text == v.text,
{
    lemma_boundary_in_range(v.text, start);
    lemma_boundary_in_range(v.text, end);
    let w = v.range_deleted(start, end);
    assert(w.undo.last() == (CommandView::Delete {
        position: start,
        text: v.text.subrange(start, end),
    }));
    assert(w.undone().text =~= v.text);
}

/// After an undo or a redo the caret sits at a character boundary.
pub proof fn lemma_history_step_caret_valid(v: EditorView)
    requires
        v.consistent(),
    ensures
        v.undo.len() > 0 && v.undone().text.len() <= usize::MAX ==> v.undone().selection_valid(),
        v.redo.len() > 0 && v.redone().text.len() <= usize::MAX ==> v.redone().selection_valid(),
{
    if v.undo.len() > 0 {
        let sp = undo_splice(v.undo.last());
        lemma_boundary_in_range(v.text, sp.0);
        lemma_splice_valid(v.text, sp.0, sp.0 + sp.1.len(), sp.2);
    }
    if v.redo.len() > 0 {
        let sp = redo_splice(v.redo.last());
        lemma_boundary_in_range(v.text, sp.0);
        lemma_splice_valid(v.text, sp.0, sp.0 + sp.1.len(), sp.2);
    }
}

/// An insertion right after the text of the previous insertion can be merged into it:
/// undoing the merged insertion takes out both.
pub proof fn lemma_coalesced_insert(h: Seq<CommandView>, t: Seq<u8>, p: int, ins: Seq<u8>)
    requires
        valid_utf8(t),
        valid_utf8(ins),
        undoable(h, t),
        is_char_boundary(t, p),
        continues_insert_at(h, p),
    ensures
        undoable(
            coalesced_push(h, CommandView::Insert { position: p, text: ins }),
            splice_bytes(t, p, p, ins),
        ),
{
    let cmd = CommandView::Insert { position: p, text: ins };
    let last = h.last();
    let pp = last->Insert_position;
    let pt = last->Insert_text;
    let t2 = splice_bytes(t, p, p, ins);
    let merged = CommandView::Insert { position: pp, text: pt + ins };
    let h2 = h.update(h.len() - 1, merged);
    assert(coalesced_push(h, cmd) == h2);
    vstd::utf8::valid_utf8_concat(pt, ins);
    lemma_boundary_in_range(t, p);
    lemma_splice_valid(t, p, p, ins);
    // the start of the merged insertion is still a boundary
    lemma_boundary_prefix(t, p, pp);
    vstd::utf8::valid_utf8_split(t, p);
    let head = t.subrange(0, p);
    let rest = ins + t.subrange(p, t.len() as int);
    vstd::utf8::valid_utf8_concat(ins, t.subrange(p, t.len() as int));
    lemma_boundary_concat_left(head, rest, pp);
    assert(t2 =~= head + rest);
    assert(t2.subrange(pp, p + ins.len()) =~= pt + ins) by {
        assert(t.subrange(pp, p) =~= pt);
    }
    assert(apply_splice(t2, undo_splice(merged)) =~= apply_splice(t, undo_splice(last)));
    assert(h2.drop_last() =~= h.drop_last());
    assert(h2.last() == merged);
}

/// Whether an insertion at `p` continues the insertion on top of `h`.
pub open spec fn continues_insert_at(h: Seq<CommandView>, p: int) -> bool {
    &&& h.len() > 0
    &&& h.last() is Insert
    &&& h.last()->Insert_position + h.last()->Insert_text.len() == p
}

/// An editable text with its selection, input-method composition and undo history.
pub struct EditableText {
    text: String,
    selection: TextSelection,
    undo_stack: UndoStack,
    composition: CompositionState,
    multiline: bool,
}

impl View for EditableText {
    type V = EditorView;

    closed spec fn view(&self) -> EditorView {
        EditorView {
            text: utf8_bytes(self.text@),
            selection: self.selection,
            undo: self.undo_stack.undo_cmds(),
            redo: self.undo_stack.redo_cmds(),
        }
    }
}

impl EditableText {
    /// The history can be replayed on the text, whose length fits a `usize`.
    pub open spec fn wf(&self) -> bool {
        &&& self@.consistent()
        &&& self@.text.len() <= usize::MAX
    }

    /// The composition state.
    pub closed spec fn comp(&self) -> CompositionState {
        self.composition
    }

    /// Whether the text accepts several lines.
    pub closed spec fn is_multiline(&self) -> bool {
        self.multiline
    }

    pub fn new(multiline: bool) -> (r: Self)
        ensures
            r.wf(),
            r@.text == Seq::<u8>::empty(),
            r@.selection == caret_at(0),
            r@.undo == Seq::<CommandView>::empty(),
            r@.redo == Seq::<CommandView>::empty(),
            r.comp().preedit_text is None,
            r.comp().cursor_range is None,
            r.is_multiline() == multiline,
    {
        let r = EditableText {
            text: String::new(),
            selection: TextSelection::default(),
            undo_stack: UndoStack::new(),
            composition: CompositionState::default(),
            multiline,
        };
        assert(r@.text =~= Seq::<u8>::empty());
        r
    }

    pub fn text(&self) -> (r: &str)
        ensures
            r.spec_bytes() == self@.text,
    {
        self.text.as_str()
    }

    /// Whether both ends of the selection are character boundaries of the text.
    pub fn selection_is_valid(&self) -> (r: bool)
        ensures
            r == self@.selection_valid(),
    {
        let t = self.text.as_str();
        t.is_char_boundary(self.selection.anchor) && t.is_char_boundary(self.selection.focus)
    }

    pub fn selection(&self) -> (r: TextSelection)
        ensures
            r == self@.selection,
    {
        self.selection
    }

    pub fn set_selection(&mut self, sel: TextSelection)
        ensures
            final(self)@ == (EditorView { selection: sel, ..old(self)@ }),
            final(self).comp() == old(self).comp(),
            final(self).is_multiline() == old(self).is_multiline(),
    {
        self.selection = sel;
    }

    /// Replaces the whole text; the caret goes to its end and the history is forgotten.
    pub fn set_text(&mut self, text: &str)
        ensures
            final(self).wf(),
            final(self)@.text == text.spec_bytes(),
            final(self)@.selection == caret_at(text.spec_bytes().len() as int),
            final(self)@.selection_valid(),
            final(self)@.undo == Seq::<CommandView>::empty(),
            final(self)@.redo == Seq::<CommandView>::empty(),
            final(self).comp() == old(self).comp(),
            final(self).is_multiline() == old(self).is_multiline(),
    {
        self.text = text.to_owned();
        let n = byte_len(self.text.as_str());
        proof {
            assert(self@.undo.len() == 0 ==> undoable(self@.undo, self@.text));
        }
        self.selection = TextSelection::collapsed(n);
        self.undo_stack.clear();
    }

    pub fn select_all(&mut self)
        ensures
            final(self)@ == (EditorView {
                selection: TextSelection { anchor: 0, focus: old(self)@.text.len() as usize },
                ..old(self)@
            }),
            old(self).wf() ==> final(self)@.selection_valid(),
            final(self).comp() == old(self).comp(),
            final(self).is_multiline() == old(self).is_multiline(),
    {
        let n = byte_len(self.text.as_str());
        self.selection = TextSelection { anchor: 0, focus: n };
    }

    pub fn selected_text(&self) -> (r: &str)
        requires
            sliceable(
                self@.text,
                self@.selection.clamped_range(self@.text.len() as int).0,
                self@.selection.clamped_range(self@.text.len() as int).1,
            ),
        ensures
            r.spec_bytes() == self@.text.subrange(
                self@.selection.clamped_range(self@.text.len() as int).0,
                self@.selection.clamped_range(self@.text.len() as int).1,
            ),
    {
        self.selection.selected_text(self.text.as_str())
    }

    /// Inserts `ins` at the caret and records the insertion (merging it with the
    /// previous insertion when `coalesce` is set and it continues it).
    fn insert_at_caret(&mut self, ins: &str, coalesce: bool)
        requires
            old(self).wf(),
            old(self)@.selection_valid(),
            old(self)@.selection.anchor == old(self)@.selection.focus,
        ensures
            final(self).wf(),
            final(self)@ == old(self)@.typed(ins.spec_bytes(), coalesce),
            final(self).comp() == old(self).comp(),
            final(self).is_multiline() == old(self).is_multiline(),
    {
        let ghost v = self@;
        let ghost t0 = self@.text;
        let pos = self.selection.focus;
        let new_text = splice_str(self.text.as_str(), pos, pos, ins);
        self.text = new_text;
        let new_len = byte_len(self.text.as_str());
        let n = byte_len(ins);
        proof {
            lemma_boundary_in_range(t0, pos as int);
            assert(t0.subrange(pos as int, pos as int) =~= Seq::<u8>::empty());
            lemma_splice_roundtrip(t0, pos as int, Seq::empty(), ins.spec_bytes());
        }
        self.selection = TextSelection::collapsed(pos + n);
        let cmd = EditCommand::Insert { position: pos, text: ins.to_owned() };
        let ghost cv = cmd@;
        proof {
            assert(cv == (CommandView::Insert { position: pos as int, text: ins.spec_bytes() }));
            if coalesce && continues_insert(v.undo, cv) {
                lemma_coalesced_insert(v.undo, t0, pos as int, ins.spec_bytes());
            } else {
                lemma_undoable_capped_push(v.undo, cv, self@.text);
            }
        }
        if coalesce {
            self.undo_stack.push_coalesced(cmd);
        } else {
            self.undo_stack.push(cmd);
        }
        proof {
            assert(self@.redo =~= Seq::<CommandView>::empty());
            assert(self@ == v.typed(ins.spec_bytes(), coalesce));
        }
    }

    /// Replaces the selection by `text`, recording the edit.
    pub fn insert_text(&mut self, text: &str)
        requires
            old(self).wf(),
            old(self)@.selection_valid(),
        ensures
            final(self).wf(),
            final(self)@ == old(self)@.typed(text.spec_bytes(), false),
            final(self)@.selection_valid(),
            final(self).comp() == old(self).comp(),
            final(self).is_multiline() == old(self).is_multiline(),
    {
        let ghost v = self@;
        self.delete_selection_inner();
        proof {
            lemma_typed_after_deletion(v, text.spec_bytes(), false);
        }
        self.insert_at_caret(text, false);
        proof {
            lemma_undo_after_typing(v, text.spec_bytes());
        }
    }

    /// Replaces the selection by `ch`; consecutive typed characters are undone together.
    pub fn insert_char(&mut self, ch: char)
        requires
            old(self).wf(),
            old(self)@.selection_valid(),
        ensures
            final(self).wf(),
            final(self)@ == old(self)@.typed(utf8_bytes(seq![ch]), true),
            final(self)@.selection_valid(),
            final(self).comp() == old(self).comp(),
            final(self).is_multiline() == old(self).is_multiline(),
    {
        let ghost v = self@;
        let s = string_of_char(ch);
        self.delete_selection_inner();
        proof {
            lemma_typed_after_deletion(v, utf8_bytes(seq![ch]), true);
        }
        self.insert_at_caret(s.as_str(), true);
        proof {
            lemma_typed_caret_valid(v, utf8_bytes(seq![ch]));
        }
    }

    /// Deletes the selection, or else the character before the caret.
    pub fn delete_backward(&mut self)
        requires
            old(self).wf(),
            old(self)@.selection_valid(),
        ensures
            final(self).wf(),
            final(self)@.selection_valid(),
            final(self).comp() == old(self).comp(),
            final(self).is_multiline() == old(self).is_multiline(),
            backspaced(old(self)@, final(self)@),
    {
        let ghost v = self@;
        if !self.selection.is_collapsed() {
            self.delete_selection_inner();
            proof {
                lemma_deleted_caret_valid(v, v.sel_start(), v.sel_end());
            }
            return;
        }
        let pos = self.selection.focus;
        if pos == 0 {
            return;
        }
        let prev = prev_char_boundary(self.text.as_str(), pos);
        self.delete_range(prev, pos);
        proof {
            lemma_deleted_caret_valid(v, prev as int, pos as int);
        }
    }

    /// Deletes the selection, or else the character after the caret.
    pub fn delete_forward(&mut self)
        requires
            old(self).wf(),
            old(self)@.selection_valid() || (old(self)@.selection.anchor == old(self)@.selection.focus
                && old(self)@.selection.focus >= old(self)@.text.len()),
        ensures
            final(self).wf(),
            old(self)@.selection_valid() ==> final(self)@.selection_valid(),
            final(self).comp() == old(self).comp(),
            final(self).is_multiline() == old(self).is_multiline(),
            forward_deleted(old(self)@, final(self)@),
    {
        let ghost v = self@;
        if !self.selection.is_collapsed() {
            self.delete_selection_inner();
            proof {
                lemma_deleted_caret_valid(v, v.sel_start(), v.sel_end());
            }
            return;
        }
        let pos = self.selection.focus;
        let len = byte_len(self.text.as_str());
        if pos >= len {
            return;
        }
        let next = next_char_boundary(self.text.as_str(), pos);
        self.delete_range(pos, next);
        proof {
            lemma_deleted_caret_valid(v, pos as int, next as int);
            assert(self@ == v.range_deleted(pos as int, next as int));
        }
    }

    /// Puts the caret at `index`, or at the end of the text if `index` is beyond it.
    pub fn move_cursor_to(&mut self, index: usize)
        ensures
            final(self)@ == (EditorView {
                selection: caret_at(
                    if index <= old(self)@.text.len() {
                        index as int
                    } else {
                        old(self)@.text.len() as int
                    },
                ),
                ..old(self)@
            }),
            final(self).comp() == old(self).comp(),
            final(self).is_multiline() == old(self).is_multiline(),
    {
        let len = byte_len(self.text.as_str());
        let clamped = if index <= len {
            index
        } else {
            len
        };
        self.selection = TextSelection::collapsed(clamped);
    }

    /// Moves the caret one character left or right, or to the start or end of the text;
    /// with `extend_selection` the anchor stays where it was.
    pub fn move_cursor(&mut self, direction: CursorDirection, extend_selection: bool)
        ensures
            caret_moved(old(self)@, final(self)@, direction, extend_selection),
            final(self).comp() == old(self).comp(),
            final(self).is_multiline() == old(self).is_multiline(),
            old(self).wf() ==> final(self).wf(),
    {
        let pos = self.selection.focus;
        let len = byte_len(self.text.as_str());
        let new_pos = match direction {
            CursorDirection::Left => {
                if pos == 0 {
                    0
                } else {
                    prev_char_boundary(self.text.as_str(), pos)
                }
            },
            CursorDirection::Right => {
                if pos >= len {
                    len
                } else {
                    next_char_boundary(self.text.as_str(), pos)
                }
            },
            CursorDirection::Home => 0,
            CursorDirection::End => len,
            CursorDirection::Up | CursorDirection::Down => pos,
        };
        if extend_selection {
            self.selection.focus = new_pos;
        } else {
            self.selection = TextSelection::collapsed(new_pos);
        }
    }

    /// Takes back the last recorded edit; the caret goes after what was restored.
    pub fn undo(&mut self)
        requires
            old(self).wf(),
        ensures
            final(self).wf(),
            final(self)@ == old(self)@.undone(),
            old(self)@.undo.len() > 0 ==> final(self)@.selection_valid(),
            final(self).comp() == old(self).comp(),
            final(self).is_multiline() == old(self).is_multiline(),
    {
        let ghost v = self@;
        let cmd = match self.undo_stack.undo() {
            None => {
                return;
            },
            Some(c) => c,
        };
        proof {
            lemma_redo_after_undo(v);
            lemma_boundary_in_range(v.text, undo_splice(cmd@).0);
            lemma_boundary_in_range(v.text, undo_splice(cmd@).0 + undo_splice(cmd@).1.len());
        }
        let len = byte_len(self.text.as_str());
        match &cmd {
            EditCommand::Insert { position, text } => {
                let n = byte_len(text.as_str());
                let empty = String::new();
                proof {
                    assert(utf8_bytes(empty@) =~= Seq::<u8>::empty());
                }
                self.text = splice_str(self.text.as_str(), *position, *position + n, empty.as_str());
                let _len = byte_len(self.text.as_str());
                self.selection = TextSelection::collapsed(*position);
            },
            EditCommand::Delete { position, text } => {
                self.text = splice_str(self.text.as_str(), *position, *position, text.as_str());
                let n = byte_len(text.as_str());
                let new_len = byte_len(self.text.as_str());
                self.selection = TextSelection::collapsed(*position + n);
            },
            EditCommand::Replace { position, old, new } => {
                let n_new = byte_len(new.as_str());
                self.text = splice_str(
                    self.text.as_str(),
                    *position,
                    *position + n_new,
                    old.as_str(),
                );
                let n_old = byte_len(old.as_str());
                let new_len = byte_len(self.text.as_str());
                self.selection = TextSelection::collapsed(*position + n_old);
            },
        }
        proof {
            assert(self@ == v.undone());
            lemma_history_step_caret_valid(v);
        }
    }

    /// Applies again the last undone edit; the caret goes after what was put back.
    pub fn redo(&mut self)
        requires
            old(self).wf(),
        ensures
            final(self).wf(),
            final(self)@ == old(self)@.redone(),
            old(self)@.redo.len() > 0 ==> final(self)@.selection_valid(),
            final(self).comp() == old(self).comp(),
            final(self).is_multiline() == old(self).is_multiline(),
    {
        let ghost v = self@;
        let cmd = match self.undo_stack.redo() {
            None => {
                return;
            },
            Some(c) => c,
        };
        proof {
            lemma_undo_after_redo(v);
            lemma_boundary_in_range(v.text, redo_splice(cmd@).0);
            lemma_boundary_in_range(v.text, redo_splice(cmd@).0 + redo_splice(cmd@).1.len());
        }
        let len = byte_len(self.text.as_str());
        match &cmd {
            EditCommand::Insert { position, text } => {
                self.text = splice_str(self.text.as_str(), *position, *position, text.as_str());
                let n = byte_len(text.as_str());
                let new_len = byte_len(self.text.as_str());
                self.selection = TextSelection::collapsed(*position + n);
            },
            EditCommand::Delete { position, text } => {
                let n = byte_len(text.as_str());
                let empty = String::new();
                proof {
                    assert(utf8_bytes(empty@) =~= Seq::<u8>::empty());
                }
                self.text = splice_str(self.text.as_str(), *position, *position + n, empty.as_str());
                let _len = byte_len(self.text.as_str());
                self.selection = TextSelection::collapsed(*position);
            },
            EditCommand::Replace { position, old, new } => {
                let n_old = byte_len(old.as_str());
                self.text = splice_str(
                    self.text.as_str(),
                    *position,
                    *position + n_old,
                    new.as_str(),
                );
                let n_new = byte_len(new.as_str());
                let new_len = byte_len(self.text.as_str());
                self.selection = TextSelection::collapsed(*position + n_new);
            },
        }
        proof {
            assert(self@ == v.redone());
            lemma_history_step_caret_valid(v);
        }
    }

    pub fn composition(&self) -> (r: &CompositionState)
        ensures
            *r == self.comp(),
    {
        &self.composition
    }

    pub fn composition_mut(&mut self) -> (r: &mut CompositionState)
        ensures
            *r == old(self).comp(),
            final(self).comp() == *final(r),
            final(self)@ == old(self)@,
            final(self).is_multiline() == old(self).is_multiline(),
    {
        &mut self.composition
    }

    /// Ends the composition, inserting its pre-edit text over the selection if there was
    /// one.
    pub fn commit_composition(&mut self)
        requires
            old(self).wf(),
            old(self).comp().preedit_text is Some ==> old(self)@.selection_valid(),
        ensures
            final(self).wf(),
            final(self).comp().preedit_text is None,
            final(self).comp().cursor_range is None,
            final(self).is_multiline() == old(self).is_multiline(),
            old(self).comp().preedit_text matches Some(t) ==> final(self)@ == old(
                self,
            )@.typed(utf8_bytes(t@), false),
            old(self).comp().preedit_text is None ==> final(self)@ == old(self)@,
    {
        if let Some(text) = self.composition.commit() {
            self.insert_text(text.as_str());
        }
    }

    /// Deletes the selected bytes, if any, recording the deletion.
    fn delete_selection_inner(&mut self)
        requires
            old(self).wf(),
            old(self)@.selection_valid(),
        ensures
            final(self).wf(),
            final(self)@ == old(self)@.selection_deleted(),
            final(self).comp() == old(self).comp(),
            final(self).is_multiline() == old(self).is_multiline(),
    {
        if self.selection.is_collapsed() {
            return;
        }
        let (start, end) = self.selection.range();
        self.delete_range(start, end);
    }

    /// Deletes `[start, end)`, records the deletion and puts the caret at `start`.
    fn delete_range(&mut self, start: usize, end: usize)
        requires
            old(self).wf(),
            sliceable(old(self)@.text, start as int, end as int),
        ensures
            final(self).wf(),
            final(self)@ == old(self)@.range_deleted(start as int, end as int),
            final(self).comp() == old(self).comp(),
            final(self).is_multiline() == old(self).is_multiline(),
    {
        let ghost v = self@;
        let ghost t0 = self@.text;
        let deleted = slice_str(self.text.as_str(), start, end).to_owned();
        let empty = String::new();
        let new_text = splice_str(self.text.as_str(), start, end, empty.as_str());
        self.text = new_text;
        let _len = byte_len(self.text.as_str());
        self.selection = TextSelection::collapsed(start);
        let cmd = EditCommand::Delete { position: start, text: deleted };
        proof {
            lemma_boundary_in_range(t0, start as int);
            lemma_boundary_in_range(t0, end as int);
            let d = t0.subrange(start as int, end as int);
            assert(utf8_bytes(empty@) =~= Seq::<u8>::empty());
            lemma_splice_roundtrip(t0, start as int, d, Seq::empty());
            assert(cmd@ == (CommandView::Delete { position: start as int, text: d }));
            lemma_undoable_capped_push(v.undo, cmd@, self@.text);
        }
        self.undo_stack.push(cmd);
        proof {
            assert(self@.redo =~= Seq::<CommandView>::empty());
            assert(self@ == v.range_deleted(start as int, end as int));
        }
    }
}

/// The last character boundary of `text` before `index` (0 when `index` is 0).
pub fn prev_char_boundary(text: &str, index: usize) -> (r: usize)
    ensures
        index == 0 ==> r == 0,
        index > 0 ==> is_prev_boundary(text.spec_bytes(), index as int, r as int),
{
    let mut i: usize = if index == 0 {
        0
    } else {
        index - 1
    };
    while i > 0 && !text.is_char_boundary(i)
        invariant
            index == 0 ==> i == 0,
            index > 0 ==> i < index,
            forall|j: int| i < j < index ==> !is_char_boundary(text.spec_bytes(), j),
        decreases i,
    {
        i -= 1;
    }
    i
}

/// The first character boundary of `text` after `index`, or the end of the text.
pub fn next_char_boundary(text: &str, index: usize) -> (r: usize)
    requires
        index < usize::MAX,
    ensures
        index >= text.spec_bytes().len() ==> r == text.spec_bytes().len(),
        index < text.spec_bytes().len() ==> is_next_boundary(
            text.spec_bytes(),
            index as int,
            r as int,
        ) && r <= text.spec_bytes().len(),
{
    let len = byte_len(text);
    let mut i: usize = index + 1;
    while i < len && !text.is_char_boundary(i)
        invariant
            index < i,
            index < len ==> i <= len,
            len == text.spec_bytes().len(),
            forall|j: int| index < j < i ==> !is_char_boundary(text.spec_bytes(), j),
        decreases len - i,
    {
        i += 1;
    }
    if i < len {
        i
    } else {
        len
    }
}

} // verus!
