//! Running an editor action: the state the terminal front end keeps besides
//! the documents (overlays, clipboard, confirmations, wrap mode), and how
//! each action changes it. Saving and opening the settings files touch the
//! disk, so for those the caller is told what to do.

use vstd::prelude::*;
use vstd::string::*;
use vstd::utf8::*;

use crate::clipboard::{osc52_copy_sequence, osc52_text, OSC52_MAX_BYTES};
use crate::cli::lossy_text;
use crate::document::{Document, SaveError};
use crate::model::buffer::{clamp, gcount, serialize};
use crate::model::editor::{
    copy_spec, cursor_line, delete_line_spec, delete_selection_spec, delete_toward_spec,
    insert_break_spec, insert_text_spec, line_indent_spec, motion_spec, move_cursor_spec,
    move_lines_down_spec, move_lines_up_spec, nonempty_range, redo_spec, undo_spec, EditorCore,
    EditorState, Motion,
};
use crate::model::movement::{left_spec, right_spec, word_left_spec};
use crate::model::position::Position;
use crate::model::selection::Selection;
use crate::model::undo::{EditKind, UndoView};
use crate::overlay::inspector::{records_view, InspectorOverlay};
use crate::overlay::palette::{palette_state, CommandPalette};
use crate::overlay::prompt::{PromptOverlay, PromptPurpose};
use crate::overlay::search::{moved, refreshed, refreshed_backward, replaced_all, replaced_current, selected_match, SearchFocus, SearchOverlay, SearchState};
use crate::session::{request_quit_spec, QuitDecision, QuitGuard, SaveConflictGuard};
use crate::workspace::Workspace;

verus! {

broadcast use {vstd::seq::group_seq_axioms, vstd::seq_lib::group_seq_properties};

/// The editor actions the front end runs.
#[derive(Debug, Clone, Copy, PartialEq, Eq, Structural)]
pub enum Action {
    CursorUp,
    CursorDown,
    CursorLeft,
    CursorRight,
    CursorWordLeft,
    CursorWordRight,
    CursorLineStart,
    CursorLineEnd,
    CursorBufferStart,
    CursorBufferEnd,
    CursorPageUp,
    CursorPageDown,
    SelectionUp,
    SelectionDown,
    SelectionLeft,
    SelectionRight,
    SelectionWordLeft,
    SelectionWordRight,
    SelectionLineStart,
    SelectionLineEnd,
    SelectionBufferStart,
    SelectionBufferEnd,
    SelectionPageUp,
    SelectionPageDown,
    SelectionAll,
    EditBackspace,
    EditDelete,
    EditDeleteWordLeft,
    EditDeleteToLineStart,
    EditInsertLineAfter,
    EditInsertLineBefore,
    EditMoveLinesUp,
    EditMoveLinesDown,
    EditIndent,
    EditOutdent,
    EditCopy,
    EditCut,
    EditPaste,
    EditUndo,
    EditRedo,
    FileSave,
    FileSaveAs,
    BufferNew,
    BufferNext,
    BufferPrevious,
    BufferClose,
    PaletteOpen,
    GoToLine,
    InspectorOpen,
    ViewToggleWrap,
    ConfigOpenSettings,
    ConfigOpenKeybindings,
    SearchOpen,
    ReplaceOpen,
    SearchNext,
    SearchPrevious,
    ReplaceNext,
    ReplaceAll,
    AppQuit,
}

/// What the caller still has to do after an action.
#[derive(Debug, Clone, Copy, PartialEq, Eq, Structural)]
pub enum Effect {
    /// Nothing more to do.
    Done,
    /// Save the active document, overwriting an external change when `force`;
    /// then report the outcome to [`Front::finish_save`].
    Save { force: bool },
    /// Open the settings file as a new document.
    OpenSettings,
    /// Open the key bindings file as a new document.
    OpenKeybindings,
}

/// The cursor movement of a motion action, and whether it extends the
/// selection.
pub open spec fn motion_of(a: Action) -> Option<(Motion, bool)> {
    match a {
        Action::CursorUp => Some((Motion::Up, false)),
        Action::CursorDown => Some((Motion::Down, false)),
        Action::CursorLeft => Some((Motion::Left, false)),
        Action::CursorRight => Some((Motion::Right, false)),
        Action::CursorWordLeft => Some((Motion::WordLeft, false)),
        Action::CursorWordRight => Some((Motion::WordRight, false)),
        Action::CursorLineStart => Some((Motion::LineStart, false)),
        Action::CursorLineEnd => Some((Motion::LineEnd, false)),
        Action::CursorBufferStart => Some((Motion::BufferStart, false)),
        Action::CursorBufferEnd => Some((Motion::BufferEnd, false)),
        Action::CursorPageUp => Some((Motion::PageUp { rows: 10 }, false)),
        Action::CursorPageDown => Some((Motion::PageDown { rows: 10 }, false)),
        Action::SelectionUp => Some((Motion::Up, true)),
        Action::SelectionDown => Some((Motion::Down, true)),
        Action::SelectionLeft => Some((Motion::Left, true)),
        Action::SelectionRight => Some((Motion::Right, true)),
        Action::SelectionWordLeft => Some((Motion::WordLeft, true)),
        Action::SelectionWordRight => Some((Motion::WordRight, true)),
        Action::SelectionLineStart => Some((Motion::LineStart, true)),
        Action::SelectionLineEnd => Some((Motion::LineEnd, true)),
        Action::SelectionBufferStart => Some((Motion::BufferStart, true)),
        Action::SelectionBufferEnd => Some((Motion::BufferEnd, true)),
        Action::SelectionPageUp => Some((Motion::PageUp { rows: 10 }, true)),
        Action::SelectionPageDown => Some((Motion::PageDown { rows: 10 }, true)),
        _ => None,
    }
}

fn motion_of_exec(a: Action) -> (res: Option<(Motion, bool)>)
    ensures
        res == motion_of(a),
{
    match a {
        Action::CursorUp => Some((Motion::Up, false)),
        Action::CursorDown => Some((Motion::Down, false)),
        Action::CursorLeft => Some((Motion::Left, false)),
        Action::CursorRight => Some((Motion::Right, false)),
        Action::CursorWordLeft => Some((Motion::WordLeft, false)),
        Action::CursorWordRight => Some((Motion::WordRight, false)),
        Action::CursorLineStart => Some((Motion::LineStart, false)),
        Action::CursorLineEnd => Some((Motion::LineEnd, false)),
        Action::CursorBufferStart => Some((Motion::BufferStart, false)),
        Action::CursorBufferEnd => Some((Motion::BufferEnd, false)),
        Action::CursorPageUp => Some((Motion::PageUp { rows: 10 }, false)),
        Action::CursorPageDown => Some((Motion::PageDown { rows: 10 }, false)),
        Action::SelectionUp => Some((Motion::Up, true)),
        Action::SelectionDown => Some((Motion::Down, true)),
        Action::SelectionLeft => Some((Motion::Left, true)),
        Action::SelectionRight => Some((Motion::Right, true)),
        Action::SelectionWordLeft => Some((Motion::WordLeft, true)),
        Action::SelectionWordRight => Some((Motion::WordRight, true)),
        Action::SelectionLineStart => Some((Motion::LineStart, true)),
        Action::SelectionLineEnd => Some((Motion::LineEnd, true)),
        Action::SelectionBufferStart => Some((Motion::BufferStart, true)),
        Action::SelectionBufferEnd => Some((Motion::BufferEnd, true)),
        Action::SelectionPageUp => Some((Motion::PageUp { rows: 10 }, true)),
        Action::SelectionPageDown => Some((Motion::PageDown { rows: 10 }, true)),
        _ => None,
    }
}

/// The active editor after an action that only edits it, or nothing for the
/// other actions.
pub open spec fn editor_step(e: EditorState, a: Action) -> Option<EditorState> {
    match motion_of(a) {
        Some((m, extend)) => Some(move_cursor_spec(e, m, extend)),
        None => match a {
            Action::SelectionAll => {
                let end = motion_spec(e.buffer, e.cursor, 0, Motion::BufferEnd);
                Some(
                    EditorState {
                        cursor: end,
                        preferred_grapheme: end.grapheme,
                        selection: Some(Selection { anchor: Position { line: 0, grapheme: 0 }, head: end }),
                        ..e
                    },
                )
            },
            Action::EditBackspace => Some(
                delete_toward_spec(e, left_spec(e.buffer, e.cursor), false, EditKind::Backspace),
            ),
            Action::EditDelete => Some(delete_toward_spec(e, right_spec(e.buffer, e.cursor), true, EditKind::Other)),
            Action::EditDeleteWordLeft => Some(
                delete_toward_spec(e, word_left_spec(e.buffer, e.cursor), false, EditKind::Other),
            ),
            Action::EditDeleteToLineStart => Some(
                delete_toward_spec(
                    e,
                    Position { line: clamp(e.buffer, e.cursor).line, grapheme: 0 },
                    false,
                    EditKind::Other,
                ),
            ),
            Action::EditInsertLineAfter => Some(
                insert_break_spec(
                    e,
                    Position {
                        line: cursor_line(e) as usize,
                        grapheme: gcount(e.buffer.lines[cursor_line(e)]) as usize,
                    },
                    cursor_line(e) + 1,
                ),
            ),
            Action::EditInsertLineBefore => Some(
                insert_break_spec(e, Position { line: cursor_line(e) as usize, grapheme: 0 }, cursor_line(e)),
            ),
            Action::EditMoveLinesUp => Some(move_lines_up_spec(e)),
            Action::EditMoveLinesDown => Some(move_lines_down_spec(e)),
            Action::EditIndent => Some(line_indent_spec(e, false)),
            Action::EditOutdent => Some(line_indent_spec(e, true)),
            _ => None,
        },
    }
}

/// Runs an action that only edits the editor; `false` for the others.
fn editor_action(editor: &mut EditorCore, a: Action) -> (handled: bool)
    requires
        old(editor)@.wf(),
    ensures
        handled == editor_step(old(editor)@, a) is Some,
        handled ==> final(editor)@ == editor_step(old(editor)@, a).unwrap(),
        !handled ==> *final(editor) == *old(editor),
        final(editor)@.wf(),
{
    match motion_of_exec(a) {
        Some((m, extend)) => {
            editor.move_cursor(m, extend);
            return true;
        },
        None => {},
    }
    match a {
        Action::SelectionAll => editor.select_all(),
        Action::EditBackspace => editor.backspace(),
        Action::EditDelete => editor.delete_forward(),
        Action::EditDeleteWordLeft => editor.delete_word_left(),
        Action::EditDeleteToLineStart => editor.delete_to_line_start(),
        Action::EditInsertLineAfter => editor.insert_line_after(),
        Action::EditInsertLineBefore => editor.insert_line_before(),
        Action::EditMoveLinesUp => editor.move_lines_up(),
        Action::EditMoveLinesDown => editor.move_lines_down(),
        Action::EditIndent => editor.indent(),
        Action::EditOutdent => editor.outdent(),
        _ => {
            return false;
        },
    }
    true
}

/// The front end's state besides the terminal: documents, overlays,
/// clipboard, confirmations and wrap mode.
pub struct Front {
    pub workspace: Workspace,
    pub palette: CommandPalette,
    pub search: SearchOverlay,
    pub prompt: PromptOverlay,
    pub inspector: InspectorOverlay,
    pub clipboard: String,
    /// Bytes to write to the terminal (OSC 52 clipboard writes).
    pub pending_terminal_write: Vec<u8>,
    pub quit_guard: QuitGuard,
    pub save_conflict_guard: SaveConflictGuard,
    /// Visual line wrap, for every document.
    pub wrap: bool,
}

/// The abstract state of a [`Front`].
pub struct FrontView {
    pub docs: Seq<Document>,
    pub active: usize,
    pub close_guard: QuitGuard,
    pub message: Seq<char>,
    pub palette: (bool, Seq<char>, usize),
    pub search: SearchState,
    pub prompt: (bool, Option<PromptPurpose>, Seq<char>, Seq<char>),
    pub inspector: (bool, Seq<(Seq<u8>, Seq<Seq<char>>)>, Seq<u8>),
    pub clipboard: Seq<char>,
    pub pending: Seq<u8>,
    pub quit_guard: QuitGuard,
    pub save_guard: SaveConflictGuard,
    pub wrap: bool,
}

impl View for Front {
    type V = FrontView;

    open spec fn view(&self) -> FrontView {
        FrontView {
            docs: self.workspace.documents@,
            active: self.workspace.active,
            close_guard: self.workspace.close_guard,
            message: self.workspace.message@,
            palette: palette_state(self.palette),
            search: self.search@,
            prompt: (self.prompt.visible, self.prompt.purpose, self.prompt.label@, self.prompt.input@),
            inspector: (self.inspector.visible, records_view(self.inspector.records@), self.inspector.pending_raw@),
            clipboard: self.clipboard@,
            pending: self.pending_terminal_write@,
            quit_guard: self.quit_guard,
            save_guard: self.save_conflict_guard,
            wrap: self.wrap,
        }
    }
}

impl Front {
    /// The documents are well formed.
    pub open spec fn wf(&self) -> bool {
        self.workspace.wf()
    }
}

/// The active document's editor.
pub open spec fn active_editor(o: FrontView) -> EditorState {
    o.docs[o.active as int].editor@
}

/// `f`'s documents are `o`'s with the active one's editor now `e`.
pub open spec fn edited(o: FrontView, f: FrontView, e: EditorState) -> bool {
    let a = o.active as int;
    &&& f.active == o.active
    &&& f.docs.len() == o.docs.len()
    &&& forall|j: int| 0 <= j < o.docs.len() && j != a ==> #[trigger] f.docs[j] == o.docs[j]
    &&& f.docs[a].editor@ == e
    &&& f.docs[a].path == o.docs[a].path
    &&& f.docs[a].view == o.docs[a].view
    &&& f.docs[a].saved_snapshot == o.docs[a].saved_snapshot
    &&& f.docs[a].saved_mtime == o.docs[a].saved_mtime
    &&& f.docs[a].readonly == o.docs[a].readonly
}

/// Whether an action changes a buffer or what is saved.
pub open spec fn is_mutating(a: Action) -> bool {
    a == Action::EditBackspace || a == Action::EditDelete || a == Action::EditDeleteWordLeft
        || a == Action::EditDeleteToLineStart || a == Action::EditInsertLineAfter
        || a == Action::EditInsertLineBefore || a == Action::EditMoveLinesUp
        || a == Action::EditMoveLinesDown || a == Action::EditIndent || a == Action::EditOutdent
        || a == Action::EditCut || a == Action::EditPaste || a == Action::EditUndo
        || a == Action::EditRedo || a == Action::ReplaceOpen || a == Action::ReplaceNext
        || a == Action::ReplaceAll || a == Action::FileSave || a == Action::FileSaveAs
}

fn is_mutating_exec(a: Action) -> (res: bool)
    ensures
        res == is_mutating(a),
{
    match a {
        Action::EditBackspace | Action::EditDelete | Action::EditDeleteWordLeft
        | Action::EditDeleteToLineStart | Action::EditInsertLineAfter | Action::EditInsertLineBefore
        | Action::EditMoveLinesUp | Action::EditMoveLinesDown | Action::EditIndent
        | Action::EditOutdent | Action::EditCut | Action::EditPaste | Action::EditUndo
        | Action::EditRedo | Action::ReplaceOpen | Action::ReplaceNext | Action::ReplaceAll
        | Action::FileSave | Action::FileSaveAs => true,
        _ => false,
    }
}

/// The pending terminal bytes and the message after copying `text`: the
/// OSC 52 write is queued unless the text is over the limit.
pub open spec fn clip_spec(pending: Seq<u8>, text: Seq<char>, status: Seq<char>) -> (Seq<u8>, Seq<char>) {
    if encode_utf8(text).len() > OSC52_MAX_BYTES {
        (pending, status + "; OSC 52 skipped (>1MB)"@)
    } else {
        (pending + encode_utf8(osc52_text(text)), status)
    }
}

/// Whether any document has unsaved changes.
pub open spec fn any_modified(docs: Seq<Document>) -> bool {
    exists|i: int| 0 <= i < docs.len() && serialize(#[trigger] docs[i].editor.buffer@) != docs[i].saved_snapshot@
}

/// The state every action starts from: no message, and the save-conflict
/// confirmation forgotten unless the action saves again.
pub open spec fn prelude(o: FrontView, a: Action) -> FrontView {
    FrontView {
        message: Seq::empty(),
        save_guard: if a == Action::FileSave {
            o.save_guard
        } else {
            SaveConflictGuard { warned: false }
        },
        ..o
    }
}

/// A closed palette.
pub open spec fn closed_palette() -> (bool, Seq<char>, usize) {
    (false, Seq::empty(), 0)
}

/// The search overlay hidden.
pub open spec fn search_closed(s: SearchState) -> SearchState {
    SearchState { visible: false, ..s }
}

/// The text shown for a document's path in the Save As prompt.
pub open spec fn path_text(path: Option<Vec<u8>>) -> Seq<char> {
    match path {
        Some(p) => lossy_text(p@),
        None => Seq::empty(),
    }
}

/// `f` is `p` with the search overlay opened on the active editor in the
/// given mode (the palette closed).
pub open spec fn search_opened(p: FrontView, f: FrontView, replace_mode: bool) -> bool {
    &&& f == FrontView { docs: f.docs, search: f.search, palette: closed_palette(), ..p }
    &&& edited(p, f, active_editor(f))
    &&& refreshed(
        SearchState { visible: true, replace_mode, focus: SearchFocus::Search, ..p.search },
        active_editor(p),
        f.search,
        active_editor(f),
    )
}

/// `f` is `p` with the search overlay and the active editor moved as `step`
/// relates them.
pub open spec fn searched(p: FrontView, f: FrontView, s2: SearchState, e2: EditorState) -> bool {
    &&& f == FrontView { docs: f.docs, search: s2, ..p }
    &&& edited(p, f, e2)
}

/// The search overlay before a replacement: as it is when shown, else
/// searched again from the cursor.
pub open spec fn replace_from(s0: SearchState, e0: EditorState, s1: SearchState, e1: EditorState) -> bool {
    if s0.visible {
        s1 == s0 && e1 == e0
    } else {
        refreshed(s0, e0, s1, e1)
    }
}

/// Replacing the current match (or all matches) from `s0`/`e0` gives
/// `s2`/`e2`.
#[verifier::opaque]
pub open spec fn replace_via(s0: SearchState, e0: EditorState, s2: SearchState, e2: EditorState, current: bool) -> bool {
    exists|s1: SearchState, e1: EditorState|
        #![trigger replace_from(s0, e0, s1, e1)]
        replace_from(s0, e0, s1, e1) && (if current {
            replaced_current(s1, e1, s2, e2)
        } else {
            replaced_all(s1, e1, s2, e2)
        })
}

/// What an action does to the front end, and what it reports.
pub open spec fn dispatch_rel(o: FrontView, a: Action, f: FrontView, res: (QuitDecision, Effect)) -> bool {
    let p = prelude(o, a);
    let e = active_editor(o);
    let idx = o.active as int;
    let go = (QuitDecision::Continue, Effect::Done);
    if is_mutating(a) && o.docs[idx].readonly {
        f == FrontView { message: "read-only buffer (large file)"@, ..p } && res == go
    } else if editor_step(e, a) is Some {
        f == FrontView { docs: f.docs, ..p } && edited(o, f, editor_step(e, a).unwrap()) && res == go
    } else {
        rest_rel(p, a, f, res)
    }
}

/// What an action other than a plain edit does, from the state `p` the
/// action starts from.
pub open spec fn rest_rel(p: FrontView, a: Action, f: FrontView, res: (QuitDecision, Effect)) -> bool {
    let e = active_editor(p);
    let idx = p.active as int;
    let go = (QuitDecision::Continue, Effect::Done);
    match a {
        Action::EditCopy => {
            &&& encode_utf8(f.clipboard) == copy_spec(e)
            &&& f == FrontView {
                clipboard: f.clipboard,
                pending: clip_spec(p.pending, f.clipboard, "copied"@).0,
                message: clip_spec(p.pending, f.clipboard, "copied"@).1,
                ..p
            }
            &&& res == go
        },
        Action::EditCut => {
            &&& encode_utf8(f.clipboard) == copy_spec(e)
            &&& edited(p, f, if nonempty_range(e.selection) is Some {
                delete_selection_spec(e).0
            } else {
                delete_line_spec(e)
            })
            &&& f == FrontView {
                docs: f.docs,
                clipboard: f.clipboard,
                pending: clip_spec(p.pending, f.clipboard, "cut"@).0,
                message: clip_spec(p.pending, f.clipboard, "cut"@).1,
                quit_guard: QuitGuard { warned: false },
                ..p
            }
            &&& res == go
        },
        Action::EditPaste => {
            &&& res == go
            &&& if p.clipboard.len() == 0 {
                f == p
            } else {
                let e1 = insert_text_spec(e, p.clipboard);
                &&& edited(p, f, EditorState { undo: UndoView { force_boundary: true, ..e1.undo }, ..e1 })
                &&& f == FrontView { docs: f.docs, quit_guard: QuitGuard { warned: false }, ..p }
            }
        },
        Action::EditUndo => {
            &&& edited(p, f, undo_spec(e))
            &&& f == FrontView {
                docs: f.docs,
                message: if e.undo.undo.len() == 0 { "nothing to undo"@ } else { p.message },
                ..p
            }
            &&& res == go
        },
        Action::EditRedo => {
            &&& edited(p, f, redo_spec(e))
            &&& f == FrontView {
                docs: f.docs,
                message: if e.undo.redo.len() == 0 { "nothing to redo"@ } else { p.message },
                ..p
            }
            &&& res == go
        },
        Action::FileSave => f == p && res == (QuitDecision::Continue, Effect::Save { force: p.save_guard.warned }),
        Action::FileSaveAs => {
            &&& f == FrontView {
                search: search_closed(p.search),
                palette: closed_palette(),
                prompt: (true, Some(PromptPurpose::SaveAs), "Save As:"@, path_text(p.docs[idx].path)),
                ..p
            }
            &&& res == go
        },
        Action::BufferNew => {
            let d = f.docs.last();
            &&& f == FrontView {
                docs: f.docs,
                active: p.docs.len() as usize,
                close_guard: QuitGuard { warned: false },
                search: search_closed(p.search),
                ..p
            }
            &&& f.docs.len() == p.docs.len() + 1
            &&& f.docs.drop_last() == p.docs
            &&& d.path is None && d.saved_mtime is None && !d.readonly
            &&& d.editor@.buffer.lines == seq![Seq::<u8>::empty()]
            &&& d.editor@.buffer.line_ending == crate::model::buffer::LineEnding::Lf
            &&& d.editor@.buffer.trailing_newline
            &&& d.editor@.preferred_grapheme == 0
            &&& !d.editor@.undo.force_boundary
            &&& d.view == (crate::view::EditorView { top_line: 0, left_col: 0, top_segment: 0 })
            &&& d.editor@.cursor == (Position { line: 0, grapheme: 0 })
            &&& d.editor@.selection is None
            &&& d.editor@.undo.undo.len() == 0 && d.editor@.undo.redo.len() == 0
            &&& d.saved_snapshot@ == serialize(d.editor@.buffer)
            &&& res == go
        },
        Action::BufferNext | Action::BufferPrevious => {
            let n = p.docs.len() as int;
            &&& res == go
            &&& if n <= 1 {
                f == p
            } else {
                f == FrontView {
                    active: (if a == Action::BufferPrevious {
                        (p.active + n - 1) % n
                    } else {
                        (p.active + 1) % n
                    }) as usize,
                    close_guard: QuitGuard { warned: false },
                    search: search_closed(p.search),
                    ..p
                }
            }
        },
        Action::BufferClose => {
            let d = p.docs[idx];
            let modified = serialize(d.editor.buffer@) != d.saved_snapshot@;
            let (g, decision) = request_quit_spec(p.close_guard, modified);
            if decision == QuitDecision::Continue {
                f == FrontView { close_guard: g, message: "unsaved changes; close again to discard"@, ..p }
                    && res == go
            } else if p.docs.len() == 1 {
                f == FrontView { close_guard: g, ..p } && res == (QuitDecision::Quit, Effect::Done)
            } else {
                &&& f == FrontView {
                    docs: p.docs.remove(idx),
                    active: (if idx < p.docs.len() - 1 { idx } else { p.docs.len() - 2 }) as usize,
                    close_guard: QuitGuard { warned: false },
                    search: search_closed(p.search),
                    ..p
                }
                &&& res == go
            }
        },
        Action::PaletteOpen => f == FrontView {
            search: search_closed(p.search),
            palette: (true, Seq::empty(), 0),
            ..p
        } && res == go,
        Action::GoToLine => f == FrontView {
            palette: closed_palette(),
            prompt: (true, Some(PromptPurpose::GoToLine), "Go to Line:"@, Seq::empty()),
            ..p
        } && res == go,
        Action::InspectorOpen => f == FrontView {
            search: search_closed(p.search),
            inspector: (true, Seq::empty(), Seq::empty()),
            message: "inspect-key: press any key"@,
            ..p
        } && res == go,
        Action::ViewToggleWrap => {
            &&& f == FrontView {
                docs: f.docs,
                wrap: !p.wrap,
                message: if !p.wrap { "wrap: on"@ } else { "wrap: off"@ },
                ..p
            }
            &&& f.docs.len() == p.docs.len()
            &&& forall|j: int| 0 <= j < p.docs.len() ==> #[trigger] f.docs[j] == (Document {
                view: crate::view::EditorView { top_segment: 0, ..p.docs[j].view },
                ..p.docs[j]
            })
            &&& res == go
        },
        Action::ConfigOpenSettings => f == p && res == (QuitDecision::Continue, Effect::OpenSettings),
        Action::ConfigOpenKeybindings => f == p && res == (QuitDecision::Continue, Effect::OpenKeybindings),
        Action::SearchOpen => search_opened(p, f, false) && res == go,
        Action::ReplaceOpen => search_opened(p, f, true) && res == go,
        Action::SearchNext => {
            &&& res == go
            &&& if p.search.query.len() == 0 {
                search_opened(p, f, false)
            } else if p.search.visible {
                searched(p, f, moved(p.search, e, 1).0, moved(p.search, e, 1).1)
            } else {
                searched(p, f, f.search, active_editor(f)) && refreshed(p.search, e, f.search, active_editor(f))
            }
        },
        Action::SearchPrevious => {
            &&& res == go
            &&& if p.search.query.len() == 0 {
                search_opened(p, f, false)
            } else if p.search.visible {
                searched(p, f, moved(p.search, e, -1).0, moved(p.search, e, -1).1)
            } else {
                searched(p, f, f.search, active_editor(f)) && refreshed_backward(
                    p.search,
                    e,
                    f.search,
                    active_editor(f),
                )
            }
        },
        Action::ReplaceNext | Action::ReplaceAll => {
            &&& res == go
            &&& if p.search.query.len() == 0 {
                search_opened(p, f, true)
            } else {
                &&& searched(p, f, f.search, active_editor(f))
                &&& replace_via(p.search, e, f.search, active_editor(f), a == Action::ReplaceNext)
            }
        },
        Action::AppQuit => {
            let (g, decision) = request_quit_spec(p.quit_guard, any_modified(p.docs));
            if decision == QuitDecision::Quit {
                f == FrontView { quit_guard: g, ..p } && res == (QuitDecision::Quit, Effect::Done)
            } else {
                f == FrontView { quit_guard: g, message: "unsaved changes; press quit again to exit"@, ..p }
                    && res == go
            }
        },
        _ => f == p && res == go,
    }
}

/// Takes document `i` out.
pub(crate) fn take_doc(docs: &mut Vec<Document>, i: usize) -> (res: Document)
    requires
        i < old(docs)@.len(),
    ensures
        res == old(docs)@[i as int],
        final(docs)@ == old(docs)@.remove(i as int),
{
    docs.remove(i)
}

/// Puts a document back where it was taken from.
pub(crate) fn put_doc(docs: &mut Vec<Document>, i: usize, d: Document, orig: Ghost<Seq<Document>>)
    requires
        i < orig@.len(),
        old(docs)@ == orig@.remove(i as int),
    ensures
        final(docs)@ == orig@.update(i as int, d),
{
    docs.insert(i, d);
    assert(docs@ =~= orig@.update(i as int, d));
}

fn lit(s: &str) -> (res: String)
    ensures
        res@ == s@,
{
    s.to_owned()
}

/// A document put back with its editor changed keeps the others, and the
/// documents stay well formed.
pub(crate) proof fn lemma_put(o: FrontView, f: FrontView, d: Document, ws: Workspace)
    requires
        o.active < o.docs.len(),
        f.active == o.active,
        f.docs == o.docs.update(o.active as int, d),
        d.path == o.docs[o.active as int].path,
        d.view == o.docs[o.active as int].view,
        d.saved_snapshot == o.docs[o.active as int].saved_snapshot,
        d.saved_mtime == o.docs[o.active as int].saved_mtime,
        d.readonly == o.docs[o.active as int].readonly,
        d.editor@.wf(),
        forall|j: int| 0 <= j < o.docs.len() ==> (#[trigger] o.docs[j]).editor@.wf(),
        ws.documents@ == f.docs,
        ws.active == f.active,
    ensures
        edited(o, f, d.editor@),
        ws.wf(),
{
    assert forall|j: int| 0 <= j < f.docs.len() implies (#[trigger] f.docs[j]).editor@.wf() by {
        if j != o.active {
            assert(f.docs[j] == o.docs[j]);
        }
    }
}

impl Front {
    /// Puts `text` on the clipboard and queues its OSC 52 write when it is
    /// not over the limit; the message says what happened.
    fn copy_to_clipboards(&mut self, text: String, status: &str)
        ensures
            final(self)@ == (FrontView {
                clipboard: text@,
                pending: clip_spec(old(self)@.pending, text@, status@).0,
                message: clip_spec(old(self)@.pending, text@, status@).1,
                ..old(self)@
            }),
            final(self).workspace.documents == old(self).workspace.documents,
    {
        let tail = "; OSC 52 skipped (>1MB)";
        proof {
            reveal_strlit("; OSC 52 skipped (>1MB)");
        }
        match osc52_copy_sequence(text.as_str()) {
            Some(sequence) => {
                let mut sequence = sequence;
                self.pending_terminal_write.append(&mut sequence);
                self.workspace.message = lit(status);
            },
            None => {
                let mut message = lit(status);
                message.append(tail);
                self.workspace.message = message;
            },
        }
        self.clipboard = text;
    }

    /// Copies (or cuts) the selection or the cursor's line.
    fn copy_or_cut(&mut self, cut: bool)
        requires
            old(self).wf(),
        ensures
            final(self).wf(),
            rest_rel(old(self)@, if cut { Action::EditCut } else { Action::EditCopy }, final(self)@, (QuitDecision::Continue, Effect::Done)),
    {
        let ghost p = self@;
        let a = self.workspace.active;
        let ghost orig = self.workspace.documents@;
        let mut doc = take_doc(&mut self.workspace.documents, a);
        let ghost d0 = doc;
        assert(doc.editor@.wf());
        let text = if cut {
            doc.editor.cut()
        } else {
            doc.editor.copy_text()
        };
        put_doc(&mut self.workspace.documents, a, doc, Ghost(orig));
        proof {
            lemma_put(p, self@, doc, self.workspace);
            if !cut {
                assert(doc == d0);
                assert(self.workspace.documents@ =~= orig);
            }
        }
        let status = if cut {
            "cut"
        } else {
            "copied"
        };
        proof {
            reveal_strlit("cut");
            reveal_strlit("copied");
        }
        match text {
            Some(t) => self.copy_to_clipboards(t, status),
            None => {},
        }
        if cut {
            self.quit_guard.reset();
        }
    }

    /// Opens the Save As prompt with the active document's path.
    fn open_save_as_prompt(&mut self)
        requires
            old(self).wf(),
        ensures
            final(self).wf(),
            final(self)@ == (FrontView {
                search: search_closed(old(self)@.search),
                palette: closed_palette(),
                prompt: (
                    true,
                    Some(PromptPurpose::SaveAs),
                    "Save As:"@,
                    path_text(old(self)@.docs[old(self)@.active as int].path),
                ),
                ..old(self)@
            }),
    {
        self.search.close();
        self.palette.close();
        let a = self.workspace.active;
        let initial = match &self.workspace.documents[a].path {
            Some(path) => crate::cli::utf8_lossy(path.as_slice()),
            None => String::new(),
        };
        let label = "Save As:";
        proof {
            reveal_strlit("Save As:");
        }
        self.prompt.open(PromptPurpose::SaveAs, label, initial.as_str());
    }

    /// Runs an action: moves and edits on the active document, clipboard,
    /// undo, documents, overlays, wrap mode and quitting. A read-only
    /// document refuses every action that would change it.
    pub fn dispatch(&mut self, action: Action) -> (res: (QuitDecision, Effect))
        requires
            old(self).wf(),
        ensures
            final(self).wf(),
            dispatch_rel(old(self)@, action, final(self)@, res),
            old(self)@.active < old(self)@.docs.len() && old(self)@.docs[old(self)@.active as int].readonly
                ==> ({
                let k = old(self)@.active as int;
                &&& final(self)@.docs.len() >= old(self)@.docs.len()
                    ==> final(self)@.docs[k].editor@.buffer == old(self)@.docs[k].editor@.buffer
                &&& !(res.1 is Save)
            }),
    {
        let ghost o = self@;
        self.workspace.message = String::new();
        if action != Action::FileSave {
            self.save_conflict_guard.reset();
        }
        let ghost p = self@;
        assert(p == prelude(o, action));
        let go = (QuitDecision::Continue, Effect::Done);
        let a = self.workspace.active;
        if is_mutating_exec(action) && self.workspace.documents[a].readonly {
            let m = "read-only buffer (large file)";
            proof {
                reveal_strlit("read-only buffer (large file)");
            }
            self.workspace.message = lit(m);
            proof {
                law_read_only_documents_keep_their_text(o, action, self@, go);
            }
            return go;
        }
        let ghost orig = self.workspace.documents@;
        let mut doc = take_doc(&mut self.workspace.documents, a);
        let ghost d0 = doc;
        let handled = editor_action(&mut doc.editor, action);
        put_doc(&mut self.workspace.documents, a, doc, Ghost(orig));
        proof {
            lemma_put(p, self@, doc, self.workspace);
            if !handled {
                assert(doc == d0);
                assert(self.workspace.documents@ =~= orig);
            }
        }
        if handled {
            proof {
                if o.active < o.docs.len() && o.docs[o.active as int].readonly {
                    law_read_only_documents_keep_their_text(o, action, self@, go);
                }
            }
            return go;
        }
        assert(self@ == p);
        let res = self.dispatch_rest(action);
        proof {
            if o.active < o.docs.len() && o.docs[o.active as int].readonly {
                law_read_only_documents_keep_their_text(o, action, self@, res);
            }
        }
        res
    }

    fn dispatch_rest(&mut self, action: Action) -> (res: (QuitDecision, Effect))
        requires
            old(self).wf(),
        ensures
            final(self).wf(),
            rest_rel(old(self)@, action, final(self)@, res),
    {
        match action {
            Action::EditCopy => {
                self.copy_or_cut(false);
                (QuitDecision::Continue, Effect::Done)
            },
            Action::EditCut => {
                self.copy_or_cut(true);
                (QuitDecision::Continue, Effect::Done)
            },
            Action::EditPaste => self.paste(),
            Action::EditUndo => self.undo_redo(true),
            Action::EditRedo => self.undo_redo(false),
            Action::FileSave => (QuitDecision::Continue, Effect::Save { force: self.save_conflict_guard.should_force() }),
            Action::FileSaveAs => {
                self.open_save_as_prompt();
                (QuitDecision::Continue, Effect::Done)
            },
            Action::BufferNew => self.buffer_new(),
            Action::BufferNext => self.switch(false),
            Action::BufferPrevious => self.switch(true),
            Action::BufferClose => self.close_buffer(),
            Action::PaletteOpen => {
                self.search.close();
                self.palette.open();
                (QuitDecision::Continue, Effect::Done)
            },
            Action::GoToLine => {
                self.palette.close();
                let label = "Go to Line:";
                let empty = "";
                proof {
                    reveal_strlit("Go to Line:");
                    reveal_strlit("");
                    assert(empty@ =~= Seq::<char>::empty());
                }
                self.prompt.open(PromptPurpose::GoToLine, label, empty);
                (QuitDecision::Continue, Effect::Done)
            },
            Action::InspectorOpen => {
                self.search.close();
                self.inspector.open();
                proof {
                    reveal_strlit("inspect-key: press any key");
                }
                self.workspace.message = lit("inspect-key: press any key");
                assert(records_view(self.inspector.records@) =~= Seq::<(Seq<u8>, Seq<Seq<char>>)>::empty());
                (QuitDecision::Continue, Effect::Done)
            },
            Action::ViewToggleWrap => self.toggle_wrap(),
            Action::ConfigOpenSettings => (QuitDecision::Continue, Effect::OpenSettings),
            Action::ConfigOpenKeybindings => (QuitDecision::Continue, Effect::OpenKeybindings),
            Action::SearchOpen => self.search_open(false),
            Action::ReplaceOpen => self.search_open(true),
            Action::SearchNext => self.search_next(),
            Action::SearchPrevious => self.search_previous(),
            Action::ReplaceNext => self.replace_next_step(),
            Action::ReplaceAll => self.replace_all_step(),
            Action::AppQuit => self.quit(),
            _ => (QuitDecision::Continue, Effect::Done),
        }
    }

    fn paste(&mut self) -> (res: (QuitDecision, Effect))
        requires
            old(self).wf(),
        ensures
            final(self).wf(),
            rest_rel(old(self)@, Action::EditPaste, final(self)@, res),
    {
        let ghost p = self@;
        if self.clipboard.as_str().unicode_len() > 0 {
            let a = self.workspace.active;
            let text = self.clipboard.clone();
            let ghost orig = self.workspace.documents@;
            let mut doc = take_doc(&mut self.workspace.documents, a);
            doc.editor.insert_text(text.as_str());
            doc.editor.commit_group();
            put_doc(&mut self.workspace.documents, a, doc, Ghost(orig));
            self.quit_guard.reset();
            proof {
                lemma_put(p, FrontView { quit_guard: p.quit_guard, ..self@ }, doc, self.workspace);
            }
        }
        (QuitDecision::Continue, Effect::Done)
    }

    fn undo_redo(&mut self, undo: bool) -> (res: (QuitDecision, Effect))
        requires
            old(self).wf(),
        ensures
            final(self).wf(),
            rest_rel(old(self)@, if undo { Action::EditUndo } else { Action::EditRedo }, final(self)@, res),
    {
        let ghost p = self@;
        let a = self.workspace.active;
        let ghost orig = self.workspace.documents@;
        let mut doc = take_doc(&mut self.workspace.documents, a);
        let done = if undo {
            doc.editor.undo()
        } else {
            doc.editor.redo()
        };
        put_doc(&mut self.workspace.documents, a, doc, Ghost(orig));
        proof {
            lemma_put(p, self@, doc, self.workspace);
            reveal_strlit("nothing to undo");
            reveal_strlit("nothing to redo");
        }
        if !done {
            self.workspace.message = if undo {
                lit("nothing to undo")
            } else {
                lit("nothing to redo")
            };
        }
        (QuitDecision::Continue, Effect::Done)
    }

    fn buffer_new(&mut self) -> (res: (QuitDecision, Effect))
        requires
            old(self).wf(),
        ensures
            final(self).wf(),
            rest_rel(old(self)@, Action::BufferNew, final(self)@, res),
    {
        let ghost before = self.workspace.documents@;
        self.workspace.documents.push(Document::unnamed());
        self.workspace.active = self.workspace.documents.len() - 1;
        self.search.close();
        self.workspace.close_guard.reset();
        proof {
            assert(self.workspace.documents@.drop_last() =~= before);
            assert forall|j: int| 0 <= j < self.workspace.documents@.len() implies (#[trigger] self.workspace.documents@[j]).editor@.wf() by {
                if j < before.len() {
                    assert(self.workspace.documents@[j] == before[j]);
                }
            }
        }
        (QuitDecision::Continue, Effect::Done)
    }

    fn switch(&mut self, previous: bool) -> (res: (QuitDecision, Effect))
        requires
            old(self).wf(),
        ensures
            final(self).wf(),
            rest_rel(old(self)@, if previous { Action::BufferPrevious } else { Action::BufferNext }, final(self)@, res),
    {
        let len = self.workspace.documents.len();
        self.workspace.switch_buffer(if previous { -1 } else { 1 });
        if len > 1 {
            self.search.close();
        }
        (QuitDecision::Continue, Effect::Done)
    }

    fn close_buffer(&mut self) -> (res: (QuitDecision, Effect))
        requires
            old(self).wf(),
        ensures
            final(self).wf(),
            rest_rel(old(self)@, Action::BufferClose, final(self)@, res),
    {
        let len = self.workspace.documents.len();
        let decision = self.workspace.close_active_buffer();
        if decision == QuitDecision::Quit {
            return (QuitDecision::Quit, Effect::Done);
        }
        if self.workspace.documents.len() < len {
            self.search.close();
        }
        (QuitDecision::Continue, Effect::Done)
    }

    fn toggle_wrap(&mut self) -> (res: (QuitDecision, Effect))
        requires
            old(self).wf(),
        ensures
            final(self).wf(),
            rest_rel(old(self)@, Action::ViewToggleWrap, final(self)@, res),
    {
        self.wrap = !self.wrap;
        let n = self.workspace.documents.len();
        let mut j: usize = 0;
        let ghost start = self.workspace.documents@;
        let ghost p0 = self@;
        while j < n
            invariant
                self@ == (FrontView { docs: self.workspace.documents@, ..p0 }),
                p0.docs == start,
                p0.active < start.len(),
                forall|k: int| 0 <= k < start.len() ==> (#[trigger] start[k]).editor@.wf(),
                n == start.len(),
                j <= n,
                self.workspace.documents@.len() == n,
                forall|k: int| 0 <= k < j ==> #[trigger] self.workspace.documents@[k] == (Document {
                    view: crate::view::EditorView { top_segment: 0, ..start[k].view },
                    ..start[k]
                }),
                forall|k: int| j <= k < n ==> #[trigger] self.workspace.documents@[k] == start[k],
            decreases n - j,
        {
            let ghost cur = self.workspace.documents@;
            let mut doc = take_doc(&mut self.workspace.documents, j);
            doc.view.top_segment = 0;
            put_doc(&mut self.workspace.documents, j, doc, Ghost(cur));
            j = j + 1;
        }
        proof {
            reveal_strlit("wrap: on");
            reveal_strlit("wrap: off");
            assert forall|k: int| 0 <= k < n implies (#[trigger] self.workspace.documents@[k]).editor@.wf() by {
                assert(self.workspace.documents@[k].editor == start[k].editor);
            }
        }
        self.workspace.message = if self.wrap {
            lit("wrap: on")
        } else {
            lit("wrap: off")
        };
        (QuitDecision::Continue, Effect::Done)
    }

    fn search_open(&mut self, replace: bool) -> (res: (QuitDecision, Effect))
        requires
            old(self).wf(),
        ensures
            final(self).wf(),
            rest_rel(old(self)@, if replace { Action::ReplaceOpen } else { Action::SearchOpen }, final(self)@, res),
            search_opened(old(self)@, final(self)@, replace),
    {
        let ghost p = self@;
        self.palette.close();
        let ghost q = self@;
        let a = self.workspace.active;
        let ghost orig = self.workspace.documents@;
        let mut doc = take_doc(&mut self.workspace.documents, a);
        self.search.open(replace, &mut doc.editor);
        put_doc(&mut self.workspace.documents, a, doc, Ghost(orig));
        proof {
            lemma_put(q, self@, doc, self.workspace);
            lemma_put(p, FrontView { palette: p.palette, ..self@ }, doc, self.workspace);
        }
        (QuitDecision::Continue, Effect::Done)
    }

    #[verifier::rlimit(40)]
    fn search_next(&mut self) -> (res: (QuitDecision, Effect))
        requires
            old(self).wf(),
        ensures
            final(self).wf(),
            rest_rel(old(self)@, Action::SearchNext, final(self)@, res),
    {
        let ghost p = self@;
        if self.search.query.as_str().unicode_len() == 0 {
            return self.search_open(false);
        }
        let a = self.workspace.active;
        let ghost orig = self.workspace.documents@;
        let mut doc = take_doc(&mut self.workspace.documents, a);
        if self.search.visible {
            self.search.next(&mut doc.editor);
        } else {
            self.search.next_from_cursor(&mut doc.editor);
        }
        put_doc(&mut self.workspace.documents, a, doc, Ghost(orig));
        proof {
            lemma_put(p, self@, doc, self.workspace);
        }
        (QuitDecision::Continue, Effect::Done)
    }

    #[verifier::rlimit(40)]
    fn search_previous(&mut self) -> (res: (QuitDecision, Effect))
        requires
            old(self).wf(),
        ensures
            final(self).wf(),
            rest_rel(old(self)@, Action::SearchPrevious, final(self)@, res),
    {
        let ghost p = self@;
        if self.search.query.as_str().unicode_len() == 0 {
            return self.search_open(false);
        }
        let a = self.workspace.active;
        let ghost orig = self.workspace.documents@;
        let mut doc = take_doc(&mut self.workspace.documents, a);
        if self.search.visible {
            self.search.previous(&mut doc.editor);
        } else {
            self.search.previous_from_cursor(&mut doc.editor);
        }
        put_doc(&mut self.workspace.documents, a, doc, Ghost(orig));
        proof {
            lemma_put(p, self@, doc, self.workspace);
        }
        (QuitDecision::Continue, Effect::Done)
    }

    #[verifier::rlimit(40)]
    fn replace_next_step(&mut self) -> (res: (QuitDecision, Effect))
        requires
            old(self).wf(),
        ensures
            final(self).wf(),
            rest_rel(old(self)@, Action::ReplaceNext, final(self)@, res),
    {
        let ghost p = self@;
        if self.search.query.as_str().unicode_len() == 0 {
            return self.search_open(true);
        }
        let a = self.workspace.active;
        let ghost orig = self.workspace.documents@;
        let mut doc = take_doc(&mut self.workspace.documents, a);
        replace_on(&mut self.search, &mut doc.editor, true);
        put_doc(&mut self.workspace.documents, a, doc, Ghost(orig));
        proof {
            lemma_put(p, self@, doc, self.workspace);
        }
        (QuitDecision::Continue, Effect::Done)
    }

    #[verifier::rlimit(40)]
    fn replace_all_step(&mut self) -> (res: (QuitDecision, Effect))
        requires
            old(self).wf(),
        ensures
            final(self).wf(),
            rest_rel(old(self)@, Action::ReplaceAll, final(self)@, res),
    {
        let ghost p = self@;
        if self.search.query.as_str().unicode_len() == 0 {
            return self.search_open(true);
        }
        let a = self.workspace.active;
        let ghost orig = self.workspace.documents@;
        let mut doc = take_doc(&mut self.workspace.documents, a);
        replace_on(&mut self.search, &mut doc.editor, false);
        put_doc(&mut self.workspace.documents, a, doc, Ghost(orig));
        proof {
            lemma_put(p, self@, doc, self.workspace);
        }
        (QuitDecision::Continue, Effect::Done)
    }

    fn quit(&mut self) -> (res: (QuitDecision, Effect))
        requires
            old(self).wf(),
        ensures
            final(self).wf(),
            rest_rel(old(self)@, Action::AppQuit, final(self)@, res),
    {
        let modified = self.workspace.is_modified();
        if self.quit_guard.request_quit(modified) == QuitDecision::Quit {
            return (QuitDecision::Quit, Effect::Done);
        }
        proof {
            reveal_strlit("unsaved changes; press quit again to exit");
        }
        self.workspace.message = lit("unsaved changes; press quit again to exit");
        (QuitDecision::Continue, Effect::Done)
    }
}

/// Replaces the current match (or all matches) on `editor`, searching
/// from the cursor first when the overlay is hidden.
#[verifier::rlimit(40)]
fn replace_on(search: &mut SearchOverlay, editor: &mut EditorCore, current: bool)
    requires
        old(editor)@.wf(),
    ensures
        final(editor)@.wf(),
        replace_via(old(search)@, old(editor)@, final(search)@, final(editor)@, current),
{
    let ghost s0 = search@;
    let ghost e0 = editor@;
    if !search.visible {
        search.next_from_cursor(editor);
    }
    let ghost s1 = search@;
    let ghost e1 = editor@;
    if current {
        search.replace_current(editor);
    } else {
        search.replace_all(editor);
    }
    assert(replace_from(s0, e0, s1, e1));
    reveal(replace_via);
}

/// The abstract form of a save's outcome: the file's new time, or why it
/// did not happen.
pub open spec fn save_outcome(r: Result<i128, SaveError>) -> Result<i128, (u8, Seq<char>)> {
    match r {
        Ok(t) => Ok(t),
        Err(SaveError::NoPath) => Err((0u8, Seq::empty())),
        Err(SaveError::Readonly) => Err((1u8, Seq::empty())),
        Err(SaveError::Conflict) => Err((2u8, Seq::empty())),
        Err(SaveError::Io(m)) => Err((3u8, m@)),
    }
}

/// The front end after a save of the active document ended with `r`: a
/// saved document records its bytes and time and the confirmations start
/// over; a document without a path opens Save As; a conflict arms the
/// overwrite confirmation; the other failures are reported.
pub open spec fn save_rel(o: FrontView, r: Result<i128, (u8, Seq<char>)>, f: FrontView) -> bool {
    let idx = o.active as int;
    let d = o.docs[idx];
    let unarmed = SaveConflictGuard { warned: false };
    match r {
        Ok(t) => {
            &&& f == FrontView {
                docs: f.docs,
                message: "saved "@ + crate::document::display_name_spec(match d.path {
                    Some(p) => Some(p@),
                    None => None,
                }),
                quit_guard: QuitGuard { warned: false },
                close_guard: QuitGuard { warned: false },
                save_guard: unarmed,
                ..o
            }
            &&& f.docs.len() == o.docs.len()
            &&& forall|j: int| 0 <= j < o.docs.len() && j != idx ==> #[trigger] f.docs[j] == o.docs[j]
            &&& f.docs[idx].editor == d.editor && f.docs[idx].path == d.path && f.docs[idx].view == d.view
            &&& f.docs[idx].readonly == d.readonly
            &&& f.docs[idx].saved_snapshot@ == serialize(d.editor.buffer@)
            &&& f.docs[idx].saved_mtime == Some(t)
        },
        Err((0u8, _)) => f == FrontView {
            search: search_closed(o.search),
            palette: closed_palette(),
            prompt: (true, Some(PromptPurpose::SaveAs), "Save As:"@, path_text(d.path)),
            save_guard: unarmed,
            ..o
        },
        Err((2u8, _)) => f == FrontView {
            save_guard: SaveConflictGuard { warned: true },
            message: "file changed on disk; save again to overwrite"@,
            ..o
        },
        Err((1u8, _)) => f == FrontView { save_guard: unarmed, message: "read-only buffer (large file)"@, ..o },
        Err((_, m)) => f == FrontView { save_guard: unarmed, message: "save failed: "@ + m, ..o },
    }
}

impl Front {
    /// Records how saving the active document (asked for by
    /// [`Effect::Save`]) ended.
    pub fn finish_save(&mut self, result: Result<i128, SaveError>)
        requires
            old(self).wf(),
        ensures
            final(self).wf(),
            save_rel(old(self)@, save_outcome(result), final(self)@),
    {
        let ghost o = self@;
        proof {
            reveal_strlit("saved ");
            reveal_strlit("file changed on disk; save again to overwrite");
            reveal_strlit("read-only buffer (large file)");
            reveal_strlit("save failed: ");
        }
        match result {
            Ok(mtime) => {
                let a = self.workspace.active;
                let ghost orig = self.workspace.documents@;
                let mut doc = take_doc(&mut self.workspace.documents, a);
                doc.mark_saved(mtime);
                let mut message = lit("saved ");
                message.append(doc.display_name().as_str());
                put_doc(&mut self.workspace.documents, a, doc, Ghost(orig));
                proof {
                    assert forall|j: int| 0 <= j < self.workspace.documents@.len() implies (#[trigger] self.workspace.documents@[j]).editor@.wf() by {
                        if j != a {
                            assert(self.workspace.documents@[j] == orig[j]);
                        }
                    }
                }
                self.workspace.message = message;
                self.quit_guard.reset();
                self.workspace.close_guard.reset();
                self.save_conflict_guard.reset();
            },
            Err(SaveError::NoPath) => {
                self.save_conflict_guard.reset();
                self.open_save_as_prompt();
            },
            Err(SaveError::Conflict) => {
                self.save_conflict_guard.warn();
                self.workspace.message = lit("file changed on disk; save again to overwrite");
            },
            Err(SaveError::Readonly) => {
                self.save_conflict_guard.reset();
                self.workspace.message = lit("read-only buffer (large file)");
            },
            Err(SaveError::Io(error)) => {
                self.save_conflict_guard.reset();
                let mut message = lit("save failed: ");
                message.append(error.as_str());
                self.workspace.message = message;
            },
        }
    }
}

/// An action that only moves the cursor or the selection keeps the text.
#[verifier::rlimit(60)]
proof fn lemma_editor_step_keeps_text(e: EditorState, a: Action)
    requires
        !is_mutating(a),
        editor_step(e, a) is Some,
    ensures
        editor_step(e, a).unwrap().buffer == e.buffer,
{
    match motion_of(a) {
        Some((m, extend)) => {
            assert(editor_step(e, a).unwrap() == move_cursor_spec(e, m, extend));
        },
        None => {
            assert(a == Action::SelectionAll) by {
                match a {
                    Action::EditBackspace | Action::EditDelete | Action::EditDeleteWordLeft
                    | Action::EditDeleteToLineStart | Action::EditInsertLineAfter
                    | Action::EditInsertLineBefore | Action::EditMoveLinesUp | Action::EditMoveLinesDown
                    | Action::EditIndent | Action::EditOutdent | Action::SelectionAll => {},
                    _ => {
                        assert(editor_step(e, a) is None);
                    },
                }
            }
        },
    }
}

/// Selecting a match keeps the text.
proof fn lemma_selected_match_keeps_text(e: EditorState, matches: Seq<(Position, Position)>, current: Option<usize>)
    ensures
        selected_match(e, matches, current).buffer == e.buffer,
{
}

/// The actions handled past the plain edits keep the active document's text
/// when they are not edits themselves.
#[verifier::rlimit(40)]
proof fn lemma_rest_keeps_text(p: FrontView, a: Action, f: FrontView, res: (QuitDecision, Effect))
    requires
        p.active < p.docs.len(),
        !is_mutating(a),
        rest_rel(p, a, f, res),
    ensures
        f.docs.len() >= p.docs.len() ==> f.docs[p.active as int].editor@.buffer == p.docs[p.active as int].editor@.buffer,
        !(res.1 is Save),
        f.prompt == p.prompt || f.prompt.1 == Some(PromptPurpose::GoToLine),
{
    let e = active_editor(p);
    let idx = p.active as int;
    match a {
        Action::BufferNew => {
            assert(f.docs.drop_last()[idx] == f.docs[idx]);
        },
        Action::ViewToggleWrap => {
            assert(f.docs[idx] == (Document { view: crate::view::EditorView { top_segment: 0, ..p.docs[idx].view }, ..p.docs[idx] }));
        },
        Action::SearchOpen => {
            lemma_selected_match_keeps_text(e, f.search.matches, f.search.current);
        },
        Action::SearchNext => {
            lemma_selected_match_keeps_text(e, f.search.matches, f.search.current);
            lemma_selected_match_keeps_text(e, p.search.matches, moved(p.search, e, 1).0.current);
        },
        Action::SearchPrevious => {
            lemma_selected_match_keeps_text(e, f.search.matches, f.search.current);
            lemma_selected_match_keeps_text(e, p.search.matches, moved(p.search, e, -1).0.current);
        },
        _ => {},
    }
}

/// On a read-only (large) document the guard turns away exactly the actions
/// that edit, undo, redo, replace or save, answering with its message and
/// changing no document; moving the cursor or the selection still works as
/// on any document, and copying still copies.
#[verifier::rlimit(60)]
#[verifier::spinoff_prover]
pub proof fn law_read_only_guard_turns_away_only_edits(o: FrontView, a: Action, f: FrontView, res: (QuitDecision, Effect))
    requires
        o.active < o.docs.len(),
        o.docs[o.active as int].readonly,
        dispatch_rel(o, a, f, res),
    ensures
        (a == Action::EditBackspace || a == Action::EditDelete || a == Action::EditDeleteWordLeft
            || a == Action::EditDeleteToLineStart || a == Action::EditInsertLineAfter
            || a == Action::EditInsertLineBefore || a == Action::EditMoveLinesUp
            || a == Action::EditMoveLinesDown || a == Action::EditIndent || a == Action::EditOutdent
            || a == Action::EditCut || a == Action::EditPaste || a == Action::EditUndo
            || a == Action::EditRedo || a == Action::ReplaceOpen || a == Action::ReplaceNext
            || a == Action::ReplaceAll || a == Action::FileSave || a == Action::FileSaveAs) ==> {
            &&& f.docs == o.docs
            &&& f.active == o.active
            &&& f.clipboard == o.clipboard
            &&& f.message == "read-only buffer (large file)"@
            &&& res == (QuitDecision::Continue, Effect::Done)
        },
        motion_of(a) matches Some((m, extend)) ==> edited(o, f, move_cursor_spec(active_editor(o), m, extend))
            && res == (QuitDecision::Continue, Effect::Done),
        a == Action::EditCopy ==> encode_utf8(f.clipboard) == copy_spec(active_editor(o)) && f.docs == o.docs,
{
    let e = active_editor(o);
    if is_mutating(a) {
        assert(motion_of(a) is None);
    } else if editor_step(e, a) is Some {
        assert(a != Action::EditCopy);
    } else {
        assert(motion_of(a) is None);
        if a == Action::EditCopy {
            assert(encode_utf8(f.clipboard) == copy_spec(e));
        }
    }
}

/// Nothing run on a read-only (large) document changes its text: whatever
/// the action, the document keeps its buffer, unless the action closed it;
/// no save is asked for and the Save As prompt does not open.
pub proof fn law_read_only_documents_keep_their_text(o: FrontView, a: Action, f: FrontView, res: (QuitDecision, Effect))
    requires
        o.active < o.docs.len(),
        o.docs[o.active as int].readonly,
        dispatch_rel(o, a, f, res),
    ensures
        f.docs.len() >= o.docs.len() ==> f.docs[o.active as int].editor@.buffer == o.docs[o.active as int].editor@.buffer,
        !(res.1 is Save),
        f.prompt == o.prompt || f.prompt.1 == Some(PromptPurpose::GoToLine),
{
    let p = prelude(o, a);
    let e = active_editor(o);
    if is_mutating(a) {
        assert(f.docs == o.docs);
    } else if editor_step(e, a) is Some {
        lemma_editor_step_keeps_text(e, a);
    } else {
        lemma_rest_keeps_text(p, a, f, res);
    }
}

} // verus!
