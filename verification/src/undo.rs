//! A bounded undo/redo history of text edits.

use vstd::prelude::*;
use vstd::string::StringSliceAdditionalSpecFns;

use crate::utf8_text::utf8_bytes;

verus! {

/// The most edits the undo history keeps; older ones are forgotten first.
pub const MAX_UNDO_DEPTH: usize = 100;

/// One reversible edit of a text, with byte positions.
#[derive(Debug, Clone)]
pub enum EditCommand {
    Insert { position: usize, text: String },
    Delete { position: usize, text: String },
    Replace { position: usize, old: String, new: String },
}

/// What an edit command is, with its strings taken as UTF-8 bytes.
pub enum CommandView {
    Insert { position: int, text: Seq<u8> },
    Delete { position: int, text: Seq<u8> },
    Replace { position: int, old: Seq<u8>, new: Seq<u8> },
}

impl View for EditCommand {
    type V = CommandView;

    open spec fn view(&self) -> CommandView {
        match self {
            EditCommand::Insert { position, text } => CommandView::Insert {
                position: *position as int,
                text: utf8_bytes(text@),
            },
            EditCommand::Delete { position, text } => CommandView::Delete {
                position: *position as int,
                text: utf8_bytes(text@),
            },
            EditCommand::Replace { position, old, new } => CommandView::Replace {
                position: *position as int,
                old: utf8_bytes(old@),
                new: utf8_bytes(new@),
            },
        }
    }
}

impl EditCommand {
    /// A copy of the command with equal contents.
    pub fn duplicate(&self) -> (r: EditCommand)
        ensures
            r@ == self@,
    {
        match self {
            EditCommand::Insert { position, text } => EditCommand::Insert {
                position: *position,
                text: text.clone(),
            },
            EditCommand::Delete { position, text } => EditCommand::Delete {
                position: *position,
                text: text.clone(),
            },
            EditCommand::Replace { position, old, new } => EditCommand::Replace {
                position: *position,
                old: old.clone(),
                new: new.clone(),
            },
        }
    }
}

/// The commands of a history, as views.
pub open spec fn command_views(cmds: Seq<EditCommand>) -> Seq<CommandView> {
    cmds.map_values(|c: EditCommand| c@)
}

/// `cmds` with `cmd` on top, the oldest command dropped when the depth is exceeded.
pub open spec fn capped_push(cmds: Seq<CommandView>, cmd: CommandView) -> Seq<CommandView> {
    let pushed = cmds.push(cmd);
    if pushed.len() > MAX_UNDO_DEPTH {
        pushed.drop_first()
    } else {
        pushed
    }
}

/// Whether `cmd` continues the insertion on top of `cmds`, so that the two merge.
pub open spec fn continues_insert(cmds: Seq<CommandView>, cmd: CommandView) -> bool {
    &&& cmd is Insert
    &&& cmds.len() > 0
    &&& cmds.last() is Insert
    &&& cmds.last()->Insert_position + cmds.last()->Insert_text.len() == cmd->Insert_position
}

/// `cmds` after a coalescing push of `cmd`: a continued insertion extends the top one.
pub open spec fn coalesced_push(cmds: Seq<CommandView>, cmd: CommandView) -> Seq<CommandView> {
    if continues_insert(cmds, cmd) {
        cmds.update(
            cmds.len() - 1,
            CommandView::Insert {
                position: cmds.last()->Insert_position,
                text: cmds.last()->Insert_text + cmd->Insert_text,
            },
        )
    } else {
        capped_push(cmds, cmd)
    }
}

/// Two stacks of edits: the ones that can be undone, and the undone ones that can be redone.
pub struct UndoStack {
    undo: Vec<EditCommand>,
    redo: Vec<EditCommand>,
}

impl UndoStack {
    /// The edits that can be undone, oldest first.
    pub closed spec fn undo_cmds(&self) -> Seq<CommandView> {
        command_views(self.undo@)
    }

    /// The edits that can be redone, the next one to redo last.
    pub closed spec fn redo_cmds(&self) -> Seq<CommandView> {
        command_views(self.redo@)
    }

    /// The history holds at most `MAX_UNDO_DEPTH` edits, undone ones included.
    pub open spec fn bounded(&self) -> bool {
        self.undo_cmds().len() + self.redo_cmds().len() <= MAX_UNDO_DEPTH
    }

    pub fn new() -> (r: Self)
        ensures
            r.undo_cmds() == Seq::<CommandView>::empty(),
            r.redo_cmds() == Seq::<CommandView>::empty(),
            r.bounded(),
    {
        let r = UndoStack { undo: Vec::new(), redo: Vec::new() };
        assert(r.undo_cmds() =~= Seq::<CommandView>::empty());
        assert(r.redo_cmds() =~= Seq::<CommandView>::empty());
        r
    }

    /// Records an edit; it clears what could be redone.
    pub fn push(&mut self, cmd: EditCommand)
        requires
            old(self).bounded(),
        ensures
            final(self).bounded(),
            final(self).undo_cmds() == capped_push(old(self).undo_cmds(), cmd@),
            final(self).redo_cmds() == Seq::<CommandView>::empty(),
    {
        let ghost cv = cmd@;
        self.redo.clear();
        if self.undo.len() >= MAX_UNDO_DEPTH {
            self.undo.remove(0);
        }
        self.undo.push(cmd);
        proof {
            assert(self.redo_cmds() =~= Seq::<CommandView>::empty());
            assert(self.undo_cmds() =~= capped_push(old(self).undo_cmds(), cv));
        }
    }

    /// Records an edit, merging an insertion that continues the previous insertion.
    pub fn push_coalesced(&mut self, cmd: EditCommand)
        requires
            old(self).bounded(),
        ensures
            final(self).bounded(),
            final(self).undo_cmds() == coalesced_push(old(self).undo_cmds(), cmd@),
            final(self).redo_cmds() == Seq::<CommandView>::empty(),
    {
        let ghost cv = cmd@;
        let ghost old_undo = self.undo_cmds();
        self.redo.clear();
        if let EditCommand::Insert { position, text } = &cmd {
            let n = self.undo.len();
            if n > 0 {
                assert(old_undo[n - 1] == self.undo@[n - 1]@);
                assert(old_undo.last() == old_undo[n - 1]);
                let merged: Option<EditCommand> = match &self.undo[n - 1] {
                    EditCommand::Insert { position: prev_pos, text: prev_text } => {
                        let prev_len = crate::utf8_text::byte_len(prev_text.as_str());
                        if *position >= *prev_pos && *position - *prev_pos == prev_len {
                            let mut joined = prev_text.clone();
                            joined.append(text.as_str());
                            proof {
                                crate::utf8_text::lemma_encode_concat(prev_text@, text@);
                            }
                            Some(EditCommand::Insert { position: *prev_pos, text: joined })
                        } else {
                            None
                        }
                    },
                    _ => None,
                };
                assert(merged matches Some(m) ==> continues_insert(old_undo, cv) && m@ == (
                CommandView::Insert {
                    position: old_undo.last()->Insert_position,
                    text: old_undo.last()->Insert_text + cv->Insert_text,
                }));
                if let Some(m) = merged {
                    self.undo.set(n - 1, m);
                    proof {
                        assert(self.redo_cmds() =~= Seq::<CommandView>::empty());
                        assert(self.undo_cmds() =~= coalesced_push(old_undo, cv));
                    }
                    return;
                }
            }
        }
        if self.undo.len() >= MAX_UNDO_DEPTH {
            self.undo.remove(0);
        }
        self.undo.push(cmd);
        proof {
            assert(self.redo_cmds() =~= Seq::<CommandView>::empty());
            assert(self.undo_cmds() =~= coalesced_push(old_undo, cv));
        }
    }
}


impl UndoStack {
    /// Takes back the most recent edit, which becomes the next one to redo.
    pub fn undo(&mut self) -> (r: Option<EditCommand>)
        requires
            old(self).bounded(),
        ensures
            final(self).bounded(),
            old(self).undo_cmds().len() == 0 ==> r is None && final(self).undo_cmds() == old(
                self,
            ).undo_cmds() && final(self).redo_cmds() == old(self).redo_cmds(),
            old(self).undo_cmds().len() > 0 ==> {
                &&& r matches Some(c) && c@ == old(self).undo_cmds().last()
                &&& final(self).undo_cmds() == old(self).undo_cmds().drop_last()
                &&& final(self).redo_cmds() == old(self).redo_cmds().push(
                    old(self).undo_cmds().last(),
                )
            },
    {
        let ghost u = self.undo_cmds();
        let ghost rd = self.redo_cmds();
        match self.undo.pop() {
            None => None,
            Some(cmd) => {
                let copy = cmd.duplicate();
                self.redo.push(copy);
                proof {
                    assert(self.undo_cmds() =~= u.drop_last());
                    assert(self.redo_cmds() =~= rd.push(u.last()));
                }
                Some(cmd)
            },
        }
    }

    /// Applies again the most recently undone edit, which becomes undoable again.
    pub fn redo(&mut self) -> (r: Option<EditCommand>)
        requires
            old(self).bounded(),
        ensures
            final(self).bounded(),
            old(self).redo_cmds().len() == 0 ==> r is None && final(self).undo_cmds() == old(
                self,
            ).undo_cmds() && final(self).redo_cmds() == old(self).redo_cmds(),
            old(self).redo_cmds().len() > 0 ==> {
                &&& r matches Some(c) && c@ == old(self).redo_cmds().last()
                &&& final(self).redo_cmds() == old(self).redo_cmds().drop_last()
                &&& final(self).undo_cmds() == old(self).undo_cmds().push(
                    old(self).redo_cmds().last(),
                )
            },
    {
        let ghost u = self.undo_cmds();
        let ghost rd = self.redo_cmds();
        match self.redo.pop() {
            None => None,
            Some(cmd) => {
                let copy = cmd.duplicate();
                self.undo.push(copy);
                proof {
                    assert(self.redo_cmds() =~= rd.drop_last());
                    assert(self.undo_cmds() =~= u.push(rd.last()));
                }
                Some(cmd)
            },
        }
    }

    /// Forgets the whole history.
    pub fn clear(&mut self)
        ensures
            final(self).bounded(),
            final(self).undo_cmds() == Seq::<CommandView>::empty(),
            final(self).redo_cmds() == Seq::<CommandView>::empty(),
    {
        self.undo.clear();
        self.redo.clear();
        assert(self.undo_cmds() =~= Seq::<CommandView>::empty());
        assert(self.redo_cmds() =~= Seq::<CommandView>::empty());
    }
}

} // verus!
