//! Text input: the queue of edits an input element receives from key events and
//! accessibility actions, and how they are applied to its editable text.

use vstd::prelude::*;
use vstd::string::StringSliceAdditionalSpecFns;

use crate::editable::{
    backspaced, caret_moved, caret_at, forward_deleted, CursorDirection, EditableText,
    EditorView,
};
use crate::key::{Key, Modifiers};
use crate::selection::TextSelection;
use crate::utf8_text::{string_of_char, utf8_bytes};

verus! {

/// An edit waiting to be applied to an input's text.
pub enum PendingInput {
    Text(String),
    Backspace,
    Delete,
    MoveCursor(CursorDirection, bool),
    SetText(String),
    ReplaceSelectedText(String),
    SelectAll,
    SetSelection(TextSelection),
}

/// A pending edit with its strings taken as characters.
pub enum InputView {
    Text(Seq<char>),
    Backspace,
    Delete,
    MoveCursor(CursorDirection, bool),
    SetText(Seq<char>),
    ReplaceSelectedText(Seq<char>),
    SelectAll,
    SetSelection(TextSelection),
}

impl View for PendingInput {
    type V = InputView;

    open spec fn view(&self) -> InputView {
        match self {
            PendingInput::Text(s) => InputView::Text(s@),
            PendingInput::Backspace => InputView::Backspace,
            PendingInput::Delete => InputView::Delete,
            PendingInput::MoveCursor(d, e) => InputView::MoveCursor(*d, *e),
            PendingInput::SetText(s) => InputView::SetText(s@),
            PendingInput::ReplaceSelectedText(s) => InputView::ReplaceSelectedText(s@),
            PendingInput::SelectAll => InputView::SelectAll,
            PendingInput::SetSelection(sel) => InputView::SetSelection(*sel),
        }
    }
}

/// The state after each of `chars` is typed in turn.
pub open spec fn typed_chars(v: EditorView, chars: Seq<char>) -> EditorView
    decreases chars.len(),
{
    if chars.len() == 0 {
        v
    } else {
        typed_chars(v, chars.drop_last()).typed(utf8_bytes(seq![chars.last()]), true)
    }
}

/// Whether applying `ev` to a text in state `v` is defined: edits need a selection whose
/// ends are character boundaries (forward deletion also accepts a caret past the end).
pub open spec fn input_allowed(v: EditorView, ev: InputView) -> bool {
    match ev {
        InputView::Text(t) => t.len() == 0 || v.selection_valid(),
        InputView::ReplaceSelectedText(_) => v.selection_valid(),
        InputView::Backspace => v.selection_valid(),
        InputView::Delete => v.selection_valid() || (v.selection.anchor == v.selection.focus
            && v.selection.focus >= v.text.len()),
        _ => true,
    }
}

/// Whether `ev` changes the text (as opposed to only the selection).
pub open spec fn is_text_edit(ev: InputView) -> bool {
    match ev {
        InputView::Text(_) | InputView::SetText(_) | InputView::ReplaceSelectedText(_)
        | InputView::Backspace | InputView::Delete => true,
        _ => false,
    }
}

/// `new` is `old` after `ev` is applied.
pub open spec fn input_applied(old: EditorView, new: EditorView, ev: InputView) -> bool {
    match ev {
        InputView::Text(t) => new == typed_chars(old, t),
        InputView::SetText(t) => new == (EditorView {
            text: utf8_bytes(t),
            selection: caret_at(utf8_bytes(t).len() as int),
            undo: Seq::empty(),
            redo: Seq::empty(),
        }),
        InputView::ReplaceSelectedText(t) => new == old.typed(utf8_bytes(t), false),
        InputView::Backspace => backspaced(old, new),
        InputView::Delete => forward_deleted(old, new),
        InputView::MoveCursor(d, e) => caret_moved(old, new, d, e),
        InputView::SelectAll => new == (EditorView {
            selection: TextSelection { anchor: 0, focus: old.text.len() as usize },
            ..old
        }),
        InputView::SetSelection(sel) => new == (EditorView { selection: sel, ..old }),
    }
}

/// Whether the edits `evs` can be applied one after another from state `v`: each is
/// allowed in every state the ones before it can lead to.
pub open spec fn inputs_allowed(v: EditorView, evs: Seq<InputView>) -> bool
    decreases evs.len(),
{
    evs.len() > 0 ==> {
        &&& input_allowed(v, evs[0])
        &&& forall|w: EditorView| #[trigger] input_applied(v, w, evs[0]) ==> inputs_allowed(
            w,
            evs.drop_first(),
        )
    }
}

/// `new` is `old` after the edits `evs` are applied in order.
pub open spec fn inputs_applied(old: EditorView, new: EditorView, evs: Seq<InputView>) -> bool
    decreases evs.len(),
{
    if evs.len() == 0 {
        new == old
    } else {
        exists|mid: EditorView|
            inputs_applied(old, mid, evs.drop_last()) && #[trigger] input_applied(mid, new, evs.last())
    }
}

proof fn lemma_inputs_applied_push(
    a: EditorView,
    b: EditorView,
    c: EditorView,
    evs: Seq<InputView>,
    e: InputView,
)
    requires
        inputs_applied(a, b, evs),
        input_applied(b, c, e),
    ensures
        inputs_applied(a, c, evs.push(e)),
{
    assert(evs.push(e).drop_last() =~= evs);
    assert(evs.push(e).last() == e);
}

/// Whether one of `evs` edits the text.
pub open spec fn any_text_edit(evs: Seq<InputView>) -> bool {
    exists|i: int| 0 <= i < evs.len() && #[trigger] is_text_edit(evs[i])
}

/// Whether `ev` can be applied to `editable` (see `input_allowed`).
pub fn input_is_allowed(editable: &EditableText, ev: &PendingInput) -> (r: bool)
    ensures
        r == input_allowed(editable@, ev@),
{
    match ev {
        PendingInput::Text(t) => t.as_str().as_bytes().len() == 0 || editable.selection_is_valid(),
        PendingInput::ReplaceSelectedText(_) => editable.selection_is_valid(),
        PendingInput::Backspace => editable.selection_is_valid(),
        PendingInput::Delete => {
            let sel = editable.selection();
            editable.selection_is_valid() || (sel.anchor == sel.focus
                && sel.focus >= editable.text().as_bytes().len())
        },
        _ => true,
    }
}

/// Applies one pending edit; returns whether the text may have changed.
pub fn apply_input(editable: &mut EditableText, ev: PendingInput) -> (changed: bool)
    requires
        old(editable).wf(),
        input_allowed(old(editable)@, ev@),
    ensures
        final(editable).wf(),
        input_applied(old(editable)@, final(editable)@, ev@),
        changed == is_text_edit(ev@),
        final(editable).comp() == old(editable).comp(),
        final(editable).is_multiline() == old(editable).is_multiline(),
{
    match ev {
        PendingInput::Text(text) => {
            let ghost v = editable@;
            let ghost chars = text@;
            let ghost c0 = editable.comp();
            let ghost m0 = editable.is_multiline();
            for ch in it: text.as_str().chars()
                invariant
                    editable.comp() == c0,
                    editable.is_multiline() == m0,
                    it.seq() == chars,
                    chars == text@,
                    editable.wf(),
                    editable@ == typed_chars(v, chars.take(it.index() as int)),
                    chars.len() > 0 ==> editable@.selection_valid(),
            {
                proof {
                    assert(chars.take(it.index() + 1).drop_last() =~= chars.take(
                        it.index() as int,
                    ));
                    assert(chars.take(it.index() + 1).last() == ch);
                }
                editable.insert_char(ch);
            }
            proof {
                assert(chars.take(chars.len() as int) =~= chars);
            }
            true
        },
        PendingInput::SetText(text) => {
            editable.set_text(text.as_str());
            true
        },
        PendingInput::ReplaceSelectedText(text) => {
            editable.insert_text(text.as_str());
            true
        },
        PendingInput::Backspace => {
            editable.delete_backward();
            true
        },
        PendingInput::Delete => {
            editable.delete_forward();
            true
        },
        PendingInput::MoveCursor(direction, extend) => {
            editable.move_cursor(direction, extend);
            false
        },
        PendingInput::SelectAll => {
            editable.select_all();
            false
        },
        PendingInput::SetSelection(selection) => {
            editable.set_selection(selection);
            false
        },
    }
}

/// Control characters (general category Cc): U+0000–U+001F and U+007F–U+009F.
pub open spec fn is_control_char(c: char) -> bool {
    (c as u32) <= 0x1F || (0x7F <= (c as u32) && (c as u32) <= 0x9F)
}

pub fn is_control(c: char) -> (r: bool)
    ensures
        r == is_control_char(c),
{
    let cp = c as u32;
    cp <= 0x1F || (0x7F <= cp && cp <= 0x9F)
}

/// The characters of `chars` that are not control characters, in order.
pub open spec fn printable_chars(chars: Seq<char>) -> Seq<char>
    decreases chars.len(),
{
    if chars.len() == 0 {
        Seq::empty()
    } else if is_control_char(chars.last()) {
        printable_chars(chars.drop_last())
    } else {
        printable_chars(chars.drop_last()).push(chars.last())
    }
}

/// The edits a key press makes in a text input: deletion keys delete, arrows and
/// Home/End move the caret (extending the selection with Shift), Enter starts a new line
/// in a multi-line input, and any other key types the printable characters it produced.
pub open spec fn key_inputs(key: Key, shift: bool, text: Option<Seq<char>>, multiline: bool) -> Seq<
    InputView,
> {
    match key {
        Key::Backspace => seq![InputView::Backspace],
        Key::Delete => seq![InputView::Delete],
        Key::ArrowLeft => seq![InputView::MoveCursor(CursorDirection::Left, shift)],
        Key::ArrowRight => seq![InputView::MoveCursor(CursorDirection::Right, shift)],
        Key::Home => seq![InputView::MoveCursor(CursorDirection::Home, shift)],
        Key::End => seq![InputView::MoveCursor(CursorDirection::End, shift)],
        Key::Enter => if multiline {
            seq![InputView::Text(seq!['\n'])]
        } else {
            Seq::empty()
        },
        _ => match text {
            Some(t) => printable_chars(t).map_values(|c: char| InputView::Text(seq![c])),
            None => Seq::empty(),
        },
    }
}

/// The direction a caret-moving key moves the caret in, if it is one.
pub open spec fn caret_key_direction(key: Key) -> Option<CursorDirection> {
    match key {
        Key::ArrowLeft => Some(CursorDirection::Left),
        Key::ArrowRight => Some(CursorDirection::Right),
        Key::Home => Some(CursorDirection::Home),
        Key::End => Some(CursorDirection::End),
        _ => None,
    }
}

/// A caret-moving key (Left, Right, Home, End) makes exactly one edit: it moves the caret
/// in the key's direction and extends the selection exactly when Shift is held, whatever
/// text the key produced and whether the input is multi-line.
pub proof fn lemma_caret_keys_extend_with_shift(
    key: Key,
    shift: bool,
    text: Option<Seq<char>>,
    multiline: bool,
)
    requires
        caret_key_direction(key) is Some,
    ensures
        key_inputs(key, shift, text, multiline) == seq![
            InputView::MoveCursor(caret_key_direction(key)->0, shift),
        ],
        key_inputs(key, shift, text, multiline)[0] matches InputView::MoveCursor(_, extend)
            && extend == shift,
{
}

/// Backspace and Delete make one deletion of their kind; Enter types a line break in a
/// multi-line input and does nothing in a single-line one.
pub proof fn lemma_editing_keys(shift: bool, text: Option<Seq<char>>, multiline: bool)
    ensures
        key_inputs(Key::Backspace, shift, text, multiline) == seq![InputView::Backspace],
        key_inputs(Key::Delete, shift, text, multiline) == seq![InputView::Delete],
        multiline ==> key_inputs(Key::Enter, shift, text, multiline) == seq![
            InputView::Text(seq!['\n']),
        ],
        !multiline ==> key_inputs(Key::Enter, shift, text, multiline).len() == 0,
{
}

/// Only printable characters are kept, in order, and none is dropped: the kept
/// characters are those of `chars` that are not control characters.
pub proof fn lemma_printable_chars(chars: Seq<char>)
    ensures
        printable_chars(chars).len() <= chars.len(),
        forall|k: int| 0 <= k < printable_chars(chars).len() ==> !is_control_char(
            #[trigger] printable_chars(chars)[k],
        ),
        (forall|k: int| 0 <= k < chars.len() ==> !is_control_char(#[trigger] chars[k]))
            ==> printable_chars(chars) == chars,
        (forall|k: int| 0 <= k < chars.len() ==> is_control_char(#[trigger] chars[k]))
            ==> printable_chars(chars).len() == 0,
    decreases chars.len(),
{
    if chars.len() > 0 {
        let rest = chars.drop_last();
        lemma_printable_chars(rest);
        assert forall|k: int| 0 <= k < rest.len() implies rest[k] == chars[k] by {}
        if (forall|k: int| 0 <= k < chars.len() ==> !is_control_char(#[trigger] chars[k])) {
            assert(!is_control_char(chars[chars.len() - 1]));
            assert(printable_chars(chars) =~= chars);
        }
        if (forall|k: int| 0 <= k < chars.len() ==> is_control_char(#[trigger] chars[k])) {
            assert(is_control_char(chars[chars.len() - 1]));
        }
    }
}

/// The views of a list of pending edits.
pub open spec fn input_views(s: Seq<PendingInput>) -> Seq<InputView> {
    s.map_values(|p: PendingInput| p@)
}

/// The edits produced by a key press (see `key_inputs`).
pub fn pending_for_key(key: Key, modifiers: Modifiers, text: Option<&str>, multiline: bool) -> (r:
    Vec<PendingInput>)
    ensures
        input_views(r@) == key_inputs(
            key,
            modifiers.bits & 1 == 1,
            match text {
                Some(t) => Some(t@),
                None => None,
            },
            multiline,
        ),
{
    let shift = modifiers.contains(Modifiers::shift());
    let ghost tv = match text {
        Some(t) => Some(t@),
        None => None::<Seq<char>>,
    };
    let mut r: Vec<PendingInput> = Vec::new();
    match key {
        Key::Backspace => r.push(PendingInput::Backspace),
        Key::Delete => r.push(PendingInput::Delete),
        Key::ArrowLeft => r.push(PendingInput::MoveCursor(CursorDirection::Left, shift)),
        Key::ArrowRight => r.push(PendingInput::MoveCursor(CursorDirection::Right, shift)),
        Key::Home => r.push(PendingInput::MoveCursor(CursorDirection::Home, shift)),
        Key::End => r.push(PendingInput::MoveCursor(CursorDirection::End, shift)),
        Key::Enter => {
            if multiline {
                r.push(PendingInput::Text(string_of_char('\n')));
            }
        },
        _ => {
            if let Some(t) = text {
                let ghost chars = t@;
                for ch in it: t.chars()
                    invariant
                        it.seq() == chars,
                        chars == t@,
                        input_views(r@) == printable_chars(chars.take(it.index() as int)).map_values(
                            |c: char| InputView::Text(seq![c]),
                        ),
                {
                    proof {
                        assert(chars.take(it.index() + 1).drop_last() =~= chars.take(
                            it.index() as int,
                        ));
                        assert(chars.take(it.index() + 1).last() == ch);
                    }
                    let ghost before = r@;
                    let ghost pre = chars.take(it.index() as int);
                    if !is_control(ch) {
                        r.push(PendingInput::Text(string_of_char(ch)));
                        proof {
                            assert(input_views(r@) =~= input_views(before).push(
                                InputView::Text(seq![ch]),
                            ));
                            assert(printable_chars(chars.take(it.index() + 1)) == printable_chars(
                                pre,
                            ).push(ch));
                        }
                    } else {
                        proof {
                            assert(printable_chars(chars.take(it.index() + 1)) == printable_chars(
                                pre,
                            ));
                        }
                    }
                    proof {
                        assert(input_views(r@) =~= printable_chars(
                            chars.take(it.index() + 1),
                        ).map_values(|c: char| InputView::Text(seq![c])));
                    }
                }
                proof {
                    assert(chars.take(chars.len() as int) =~= chars);
                }
            }
        },
    }
    proof {
        assert(shift == (modifiers.bits & 1 == 1));
        assert(input_views(r@) =~= key_inputs(key, shift, tv, multiline));
    }
    r
}

/// The state behind an input element: its editable text once laid out, whether it has
/// focus, and the edits not yet applied.
pub struct InputHandle {
    editable: Option<EditableText>,
    focused: bool,
    initialized: bool,
    pending: Vec<PendingInput>,
}

impl InputHandle {
    pub closed spec fn editable_spec(&self) -> Option<EditableText> {
        self.editable
    }

    pub closed spec fn focused_spec(&self) -> bool {
        self.focused
    }

    pub closed spec fn initialized_spec(&self) -> bool {
        self.initialized
    }

    /// The edits waiting to be applied, oldest first.
    pub closed spec fn pending_spec(&self) -> Seq<InputView> {
        input_views(self.pending@)
    }

    /// The editable text, once there is one, keeps its history consistent.
    pub open spec fn wf(&self) -> bool {
        self.editable_spec() matches Some(e) ==> e.wf()
    }

    pub fn new() -> (r: Self)
        ensures
            r.editable_spec() is None,
            !r.focused_spec(),
            !r.initialized_spec(),
            r.pending_spec() == Seq::<InputView>::empty(),
            r.wf(),
    {
        let r = InputHandle { editable: None, focused: false, initialized: false, pending: Vec::new() };
        assert(r.pending_spec() =~= Seq::<InputView>::empty());
        r
    }

    /// The current text (empty before the input is laid out).
    pub fn text(&self) -> (r: String)
        ensures
            self.editable_spec() matches Some(e) ==> utf8_bytes(r@) == e@.text,
            self.editable_spec() is None ==> r@ == Seq::<char>::empty(),
    {
        match &self.editable {
            Some(e) => e.text().to_owned(),
            None => String::new(),
        }
    }

    pub fn is_focused(&self) -> (r: bool)
        ensures
            r == self.focused_spec(),
    {
        self.focused
    }

    /// The current selection (a caret at 0 before the input is laid out).
    pub fn selection(&self) -> (r: TextSelection)
        ensures
            self.editable_spec() matches Some(e) ==> r == e@.selection,
            self.editable_spec() is None ==> r == caret_at(0),
    {
        match &self.editable {
            Some(e) => e.selection(),
            None => TextSelection::default(),
        }
    }

    fn enqueue(&mut self, ev: PendingInput)
        ensures
            final(self).pending_spec() == old(self).pending_spec().push(ev@),
            final(self).editable_spec() == old(self).editable_spec(),
            final(self).focused_spec() == old(self).focused_spec(),
            final(self).initialized_spec() == old(self).initialized_spec(),
    {
        let ghost e = ev@;
        self.pending.push(ev);
        assert(self.pending_spec() =~= old(self).pending_spec().push(e));
    }

    /// Queues replacing the whole text.
    pub fn set_text(&mut self, text: String)
        ensures
            final(self).pending_spec() == old(self).pending_spec().push(InputView::SetText(text@)),
            final(self).editable_spec() == old(self).editable_spec(),
            final(self).focused_spec() == old(self).focused_spec(),
            final(self).initialized_spec() == old(self).initialized_spec(),
    {
        self.enqueue(PendingInput::SetText(text));
    }

    /// Queues replacing the selection.
    pub fn replace_selected_text(&mut self, text: String)
        ensures
            final(self).pending_spec() == old(self).pending_spec().push(
                InputView::ReplaceSelectedText(text@),
            ),
            final(self).editable_spec() == old(self).editable_spec(),
            final(self).focused_spec() == old(self).focused_spec(),
            final(self).initialized_spec() == old(self).initialized_spec(),
    {
        self.enqueue(PendingInput::ReplaceSelectedText(text));
    }

    /// Queues selecting the whole text.
    pub fn select_all(&mut self)
        ensures
            final(self).pending_spec() == old(self).pending_spec().push(InputView::SelectAll),
            final(self).editable_spec() == old(self).editable_spec(),
            final(self).focused_spec() == old(self).focused_spec(),
            final(self).initialized_spec() == old(self).initialized_spec(),
    {
        self.enqueue(PendingInput::SelectAll);
    }

    /// Queues setting the selection.
    pub fn set_selection(&mut self, selection: TextSelection)
        ensures
            final(self).pending_spec() == old(self).pending_spec().push(
                InputView::SetSelection(selection),
            ),
            final(self).editable_spec() == old(self).editable_spec(),
            final(self).focused_spec() == old(self).focused_spec(),
            final(self).initialized_spec() == old(self).initialized_spec(),
    {
        self.enqueue(PendingInput::SetSelection(selection));
    }

    /// Records whether the input has focus.
    pub fn set_focused(&mut self, focused: bool)
        ensures
            final(self).focused_spec() == focused,
            final(self).pending_spec() == old(self).pending_spec(),
            final(self).editable_spec() == old(self).editable_spec(),
            final(self).initialized_spec() == old(self).initialized_spec(),
    {
        self.focused = focused;
    }

    /// Queues the edits a key press makes (see `key_inputs`).
    pub fn handle_key(&mut self, key: Key, modifiers: Modifiers, text: Option<&str>, multiline: bool)
        ensures
            final(self).pending_spec() == old(self).pending_spec() + key_inputs(
                key,
                modifiers.bits & 1 == 1,
                match text {
                    Some(t) => Some(t@),
                    None => None,
                },
                multiline,
            ),
            final(self).editable_spec() == old(self).editable_spec(),
            final(self).focused_spec() == old(self).focused_spec(),
            final(self).initialized_spec() == old(self).initialized_spec(),
    {
        let mut events = pending_for_key(key, modifiers, text, multiline);
        let ghost added = input_views(events@);
        self.pending.append(&mut events);
        assert(self.pending_spec() =~= old(self).pending_spec() + added);
    }

    /// The edits waiting to be applied.
    pub fn pending(&self) -> (r: &Vec<PendingInput>)
        ensures
            input_views(r@) == self.pending_spec(),
    {
        &self.pending
    }

    /// Hands out the waiting edits, leaving the queue empty.
    pub fn take_pending(&mut self) -> (r: Vec<PendingInput>)
        ensures
            input_views(r@) == old(self).pending_spec(),
            final(self).pending_spec() == Seq::<InputView>::empty(),
            final(self).editable_spec() == old(self).editable_spec(),
            final(self).focused_spec() == old(self).focused_spec(),
            final(self).initialized_spec() == old(self).initialized_spec(),
    {
        let mut r: Vec<PendingInput> = Vec::new();
        std::mem::swap(&mut r, &mut self.pending);
        assert(self.pending_spec() =~= Seq::<InputView>::empty());
        r
    }

    /// The value an input announces to accessibility: its text once laid out, else the
    /// initial value; none when that is empty.
    pub fn accessible_value(&self, initial_value: Option<String>) -> (r: Option<String>)
        ensures
            self.editable_spec() matches Some(e) ==> {
                &&& e@.text.len() > 0 ==> (r matches Some(t) && utf8_bytes(t@) == e@.text)
                &&& e@.text.len() == 0 ==> r is None
            },
            self.editable_spec() is None ==> match initial_value {
                Some(v) => if v@.len() > 0 {
                    r == Some(v)
                } else {
                    r is None
                },
                None => r is None,
            },
    {
        let current = match &self.editable {
            Some(e) => Some(e.text().to_owned()),
            None => initial_value,
        };
        match current {
            Some(t) => {
                if t.as_str().is_empty() {
                    None
                } else {
                    Some(t)
                }
            },
            None => None,
        }
    }

    pub fn editable(&self) -> (r: Option<&EditableText>)
        ensures
            r is Some <==> self.editable_spec() is Some,
            r matches Some(e) ==> self.editable_spec() == Some(*e),
    {
        self.editable.as_ref()
    }

    /// Creates the editable text on first layout, filling in the initial value once.
    pub fn ensure_editable(&mut self, multiline: bool, initial_value: Option<&str>)
        requires
            old(self).wf(),
        ensures
            final(self).wf(),
            final(self).editable_spec() is Some,
            final(self).pending_spec() == old(self).pending_spec(),
            final(self).focused_spec() == old(self).focused_spec(),
            old(self).editable_spec() is Some ==> final(self).editable_spec() == old(
                self,
            ).editable_spec() && final(self).initialized_spec() == old(self).initialized_spec(),
            old(self).editable_spec() is None ==> ({
                let e = final(self).editable_spec()->0;
                &&& e.is_multiline() == multiline
                &&& e@.undo.len() == 0
                &&& e@.redo.len() == 0
                &&& e@.selection == caret_at(e@.text.len() as int)
                &&& e.comp().preedit_text is None
                &&& e.comp().cursor_range is None
                &&& (initial_value is Some && !old(self).initialized_spec()) ==> e@.text
                    == initial_value->0.spec_bytes() && final(self).initialized_spec()
                &&& !(initial_value is Some && !old(self).initialized_spec()) ==> e@.text.len()
                    == 0 && final(self).initialized_spec() == old(self).initialized_spec()
            }),
    {
        if self.editable.is_none() {
            let mut editable = EditableText::new(multiline);
            if let Some(text) = initial_value {
                if !self.initialized {
                    editable.set_text(text);
                    self.initialized = true;
                }
            }
            self.editable = Some(editable);
        }
    }

    /// Applies one edit to the editable text; before the input is laid out there is
    /// none, and the edit is queued again to be applied later. Returns whether the text
    /// may have changed.
    pub fn apply(&mut self, ev: PendingInput) -> (changed: bool)
        requires
            old(self).wf(),
            old(self).editable_spec() matches Some(e) ==> input_allowed(e@, ev@),
        ensures
            final(self).wf(),
            final(self).focused_spec() == old(self).focused_spec(),
            final(self).initialized_spec() == old(self).initialized_spec(),
            old(self).editable_spec() is None ==> {
                &&& !changed
                &&& final(self).editable_spec() is None
                &&& final(self).pending_spec() == old(self).pending_spec().push(ev@)
            },
            old(self).editable_spec() matches Some(e) ==> {
                &&& final(self).editable_spec() matches Some(f) && input_applied(e@, f@, ev@)
                    && f.comp() == e.comp() && f.is_multiline() == e.is_multiline()
                &&& changed == is_text_edit(ev@)
                &&& final(self).pending_spec() == old(self).pending_spec()
            },
    {
        match &mut self.editable {
            Some(e) => apply_input(e, ev),
            None => {
                self.enqueue(ev);
                false
            },
        }
    }

    /// Applies the queued edits in order, once the input has its editable text; before
    /// that the queue is kept. Returns whether any of them edited the text (so that a
    /// change callback is due).
    pub fn apply_pending(&mut self) -> (changed: bool)
        requires
            old(self).wf(),
            old(self).editable_spec() matches Some(e) ==> inputs_allowed(e@, old(self).pending_spec()),
        ensures
            final(self).wf(),
            final(self).focused_spec() == old(self).focused_spec(),
            final(self).initialized_spec() == old(self).initialized_spec(),
            old(self).editable_spec() is None ==> {
                &&& !changed
                &&& final(self).editable_spec() is None
                &&& final(self).pending_spec() == old(self).pending_spec()
            },
            old(self).editable_spec() matches Some(e) ==> {
                &&& final(self).editable_spec() matches Some(f) && inputs_applied(
                    e@,
                    f@,
                    old(self).pending_spec(),
                ) && f.comp() == e.comp() && f.is_multiline() == e.is_multiline()
                &&& final(self).pending_spec() == Seq::<InputView>::empty()
                &&& changed == any_text_edit(old(self).pending_spec())
            },
    {
        if self.editable.is_none() {
            return false;
        }
        let ghost evs = self.pending_spec();
        let mut queue = self.take_pending();
        let mut editable = self.editable.take().unwrap();
        let ghost start = editable;
        let mut changed = false;
        let n = queue.len();
        let mut i: usize = 0;
        proof {
            assert(evs.subrange(0, n as int) =~= evs);
            assert(evs.take(0) =~= Seq::<InputView>::empty());
        }
        while i < n
            invariant
                n == evs.len(),
                i <= n,
                input_views(queue@) == evs.subrange(i as int, n as int),
                queue@.len() == n - i,
                editable.wf(),
                editable.comp() == start.comp(),
                editable.is_multiline() == start.is_multiline(),
                inputs_applied(start@, editable@, evs.take(i as int)),
                inputs_allowed(editable@, evs.subrange(i as int, n as int)),
                changed == any_text_edit(evs.take(i as int)),
            decreases n - i,
        {
            let ghost before = editable@;
            let ghost qb = queue@;
            let ghost sub = evs.subrange(i as int, n as int);
            let ev = queue.remove(0);
            proof {
                assert(queue@ =~= qb.subrange(1, qb.len() as int));
                assert forall|k: int| 0 <= k < queue@.len() implies #[trigger] input_views(queue@)[k]
                    == input_views(qb)[k + 1] by {
                    assert(queue@[k] == qb[k + 1]);
                }
                assert(input_views(queue@) =~= input_views(qb).subrange(1, qb.len() as int));
                assert(input_views(queue@) =~= evs.subrange(i + 1, n as int));
                assert(ev@ == evs[i as int]);
                assert(sub[0] == evs[i as int]);
                assert(sub.drop_first() =~= evs.subrange(i + 1, n as int));
            }
            let c = apply_input(&mut editable, ev);
            changed = changed || c;
            proof {
                assert(input_applied(before, editable@, sub[0]));
                let t = evs.take(i + 1);
                assert(t.drop_last() =~= evs.take(i as int));
                assert(t.last() == evs[i as int]);
                lemma_inputs_applied_push(start@, before, editable@, evs.take(i as int), evs[i as int]);
                assert(evs.take(i as int).push(evs[i as int]) =~= t);
                assert(changed == any_text_edit(t)) by {
                    if any_text_edit(evs.take(i as int)) {
                        let k = choose|k: int| 0 <= k < evs.take(i as int).len() && #[trigger] is_text_edit(evs.take(i as int)[k]);
                        assert(t[k] == evs.take(i as int)[k]);
                    }
                    if c {
                        assert(t[i as int] == evs[i as int]);
                    }
                    if any_text_edit(t) {
                        let k = choose|k: int| 0 <= k < t.len() && #[trigger] is_text_edit(t[k]);
                        if k < i {
                            assert(evs.take(i as int)[k] == t[k]);
                        }
                    }
                }
            }
            i += 1;
        }
        proof {
            assert(evs.take(n as int) =~= evs);
        }
        self.editable = Some(editable);
        changed
    }
}

impl Default for InputHandle {
    fn default() -> (r: Self)
        ensures
            r.editable_spec() is None,
            !r.focused_spec(),
            r.pending_spec() == Seq::<InputView>::empty(),
    {
        Self::new()
    }
}

} // verus!
