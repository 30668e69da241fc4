//! High-level pure editor facade over buffer, cursor, selection, and undo.

use vstd::prelude::*;
use vstd::utf8::*;

use super::buffer::{
    clamp, decoded, lemma_decoded_storable, delete_spec, encoded, gcount, insert_spec, line_ok, line_span,
    nonempty_lines, no_lf, range_text, normalized, storable, string_bytes, string_from_bytes,
    strings_view, with_lines,
    BufferView, TextBuffer,
};
use super::movement::{
    self, left_spec, right_spec, sat_sub, vertical_spec, word_left_spec, word_right_spec,
};
use super::position::{pos_le, pos_lt, Position};
use super::laws::{
    law_block_ends_before_line_selected_to_its_start, law_page_motions, lemma_line_group_undo, undone_and_redone,
};
use super::unicode::lemma_ascii_split;
use crate::text::{add_signed, sat_add_signed};
use super::selection::{sel_range, Selection};
use super::undo::{
    group_ok, op_ok, record_spec, EditGroup, EditKind, EditOp, GroupView, MergeInfo, OpView,
    UndoStack, UndoView, apply_backward, apply_forward,
};

verus! {

broadcast use {vstd::seq::group_seq_axioms, vstd::seq_lib::group_seq_properties};

/// Fixed indent width for `indent`/`outdent`.
pub const INDENT_WIDTH: usize = 4;

/// Cursor movement commands exposed by [`EditorCore::move_cursor`].
#[derive(Debug, Clone, Copy, PartialEq, Eq, Structural)]
pub enum Motion {
    Left,
    Right,
    Up,
    Down,
    LineStart,
    LineEnd,
    BufferStart,
    BufferEnd,
    PageUp { rows: usize },
    PageDown { rows: usize },
    WordLeft,
    WordRight,
}

/// Pure editor state: buffer, cursor, preferred column, selection, history.
#[derive(Debug, Clone)]
pub struct EditorCore {
    pub buffer: TextBuffer,
    pub cursor: Position,
    pub preferred_grapheme: usize,
    pub selection: Option<Selection>,
    pub undo: UndoStack,
}

/// The abstract state of an [`EditorCore`].
pub struct EditorState {
    pub buffer: BufferView,
    pub cursor: Position,
    pub preferred_grapheme: usize,
    pub selection: Option<Selection>,
    pub undo: UndoView,
}

impl View for EditorCore {
    type V = EditorState;

    open spec fn view(&self) -> EditorState {
        EditorState {
            buffer: self.buffer@,
            cursor: self.cursor,
            preferred_grapheme: self.preferred_grapheme,
            selection: self.selection,
            undo: self.undo@,
        }
    }
}

impl EditorState {
    /// A replayable history over a well-formed buffer.
    pub open spec fn wf(self) -> bool {
        self.buffer.wf() && self.undo.wf()
    }
}

/// The cursor moved to the clamped `pos`, updating the preferred column when asked.
pub open spec fn set_cursor_spec(e: EditorState, pos: Position, update_preferred: bool) -> EditorState {
    let c = clamp(e.buffer, pos);
    EditorState {
        cursor: c,
        preferred_grapheme: if update_preferred {
            c.grapheme
        } else {
            e.preferred_grapheme
        },
        ..e
    }
}

/// The editor after undoing its latest group: the group's inverse operations
/// are applied last to first, the cursor and selection go back to where the
/// group started, and the group moves to the redo list.
pub open spec fn undo_spec(e: EditorState) -> EditorState {
    if e.undo.undo.len() == 0 {
        e
    } else {
        let g = e.undo.undo.last();
        let b = apply_backward(e.buffer, g.inverse);
        let c = clamp(b, g.cursor_before);
        EditorState {
            buffer: b,
            cursor: c,
            preferred_grapheme: c.grapheme,
            selection: g.selection_before,
            undo: UndoView {
                undo: e.undo.undo.drop_last(),
                redo: e.undo.redo.push(g),
                force_boundary: true,
            },
        }
    }
}

/// The editor after redoing its latest undone group: the group's operations
/// are applied first to last, the cursor and selection go to where the group
/// ended, and the group moves back to the undo list.
pub open spec fn redo_spec(e: EditorState) -> EditorState {
    if e.undo.redo.len() == 0 {
        e
    } else {
        let g = e.undo.redo.last();
        let b = apply_forward(e.buffer, g.forward);
        let c = clamp(b, g.cursor_after);
        EditorState {
            buffer: b,
            cursor: c,
            preferred_grapheme: c.grapheme,
            selection: g.selection_after,
            undo: UndoView {
                undo: e.undo.undo.push(g),
                redo: e.undo.redo.drop_last(),
                force_boundary: true,
            },
        }
    }
}

/// The editor with `start..end` (both clamped) selected and the cursor at
/// its end.
pub open spec fn select_range_spec(e: EditorState, start: Position, end: Position) -> EditorState {
    EditorState {
        selection: Some(Selection { anchor: clamp(e.buffer, start), head: clamp(e.buffer, end) }),
        ..set_cursor_spec(e, end, true)
    }
}

/// Where a motion takes the cursor.
pub open spec fn motion_spec(v: BufferView, cursor: Position, preferred: usize, motion: Motion) -> Position {
    match motion {
        Motion::Left => left_spec(v, cursor),
        Motion::Right => right_spec(v, cursor),
        Motion::Up => vertical_spec(v, sat_sub(cursor.line as int, 1), preferred as int),
        Motion::Down => vertical_spec(v, clamp(v, cursor).line + 1, preferred as int),
        Motion::LineStart => Position { line: clamp(v, cursor).line, grapheme: 0 },
        Motion::LineEnd => Position {
            line: clamp(v, cursor).line,
            grapheme: gcount(v.lines[clamp(v, cursor).line as int]) as usize,
        },
        Motion::BufferStart => Position { line: 0, grapheme: 0 },
        Motion::BufferEnd => Position {
            line: (v.lines.len() - 1) as usize,
            grapheme: gcount(v.lines.last()) as usize,
        },
        Motion::PageUp { rows } => vertical_spec(
            v,
            sat_sub(clamp(v, cursor).line as int, rows as int),
            preferred as int,
        ),
        Motion::PageDown { rows } => vertical_spec(
            v,
            clamp(v, cursor).line + rows,
            preferred as int,
        ),
        Motion::WordLeft => word_left_spec(v, cursor),
        Motion::WordRight => word_right_spec(v, cursor),
    }
}

/// Vertical motions keep the preferred column; all others reset it.
pub open spec fn is_horizontal_spec(motion: Motion) -> bool {
    !(motion is Up || motion is Down || motion is PageUp || motion is PageDown)
}

/// The editor after `move_cursor(motion, extend)`.
pub open spec fn move_cursor_spec(e: EditorState, motion: Motion, extend: bool) -> EditorState {
    let e1 = EditorState { cursor: clamp(e.buffer, e.cursor), ..e };
    if !extend && e.selection is Some && (motion is Left || motion is Right) {
        let r = sel_range(e.selection->0);
        let target = if motion is Left {
            r.0
        } else {
            r.1
        };
        EditorState { selection: None, ..set_cursor_spec(e1, target, true) }
    } else {
        let anchor = match e.selection {
            Some(s) => s.anchor,
            None => e1.cursor,
        };
        let next = motion_spec(e.buffer, e1.cursor, e.preferred_grapheme, motion);
        let e2 = set_cursor_spec(e1, next, is_horizontal_spec(motion));
        EditorState {
            selection: if extend {
                Some(Selection { anchor, head: e2.cursor })
            } else {
                None
            },
            ..e2
        }
    }
}

impl Default for EditorCore {
    /// An editor over a new empty buffer.
    fn default() -> (res: Self)
        ensures
            res@.buffer.lines == seq![Seq::<u8>::empty()],
            res@.buffer.line_ending == super::buffer::LineEnding::Lf,
            res@.buffer.trailing_newline,
            res@.cursor == (Position { line: 0, grapheme: 0 }),
            res@.preferred_grapheme == 0,
            res@.selection is None,
            res@.undo.undo.len() == 0,
            res@.undo.redo.len() == 0,
            res@.wf(),
    {
        Self::new(TextBuffer::default())
    }
}

fn is_horizontal(motion: Motion) -> (res: bool)
    ensures
        res == is_horizontal_spec(motion),
{
    match motion {
        Motion::Up | Motion::Down | Motion::PageUp { .. } | Motion::PageDown { .. } => false,
        _ => true,
    }
}

/// The position moved by `delta` lines, saturating at 0 and `usize::MAX`.
pub open spec fn shift_line_spec(pos: Position, delta: int) -> Position {
    let line = pos.line + delta;
    Position {
        line: if line < 0 {
            0
        } else if line > usize::MAX {
            usize::MAX
        } else {
            line as usize
        },
        grapheme: pos.grapheme,
    }
}

fn shift_line(pos: Position, up: bool) -> (res: Position)
    ensures
        res == shift_line_spec(pos, if up { -1 } else { 1 }),
{
    if up {
        Position::new(pos.line.saturating_sub(1), pos.grapheme)
    } else {
        Position::new(pos.line.saturating_add(1), pos.grapheme)
    }
}

impl EditorCore {
    /// Creates an editor around an existing buffer.
    pub fn new(buffer: TextBuffer) -> (res: Self)
        ensures
            res@.buffer == buffer@,
            res@.cursor == (Position { line: 0, grapheme: 0 }),
            res@.preferred_grapheme == 0,
            res@.selection is None,
            res@.undo.undo.len() == 0,
            res@.undo.redo.len() == 0,
            !res@.undo.force_boundary,
            buffer@.wf() ==> res@.wf(),
    {
        EditorCore {
            buffer,
            cursor: Position::new(0, 0),
            preferred_grapheme: 0,
            selection: None,
            undo: UndoStack::new(),
        }
    }

    fn set_cursor(&mut self, pos: Position, update_preferred: bool)
        requires
            old(self)@.wf(),
        ensures
            final(self)@ == set_cursor_spec(old(self)@, pos, update_preferred),
    {
        self.cursor = self.buffer.clamp_position(pos);
        if update_preferred {
            self.update_preferred();
        }
    }

    fn update_preferred(&mut self)
        ensures
            final(self)@ == (EditorState { preferred_grapheme: old(self).cursor.grapheme, ..old(self)@ }),
    {
        self.preferred_grapheme = self.cursor.grapheme;
    }

    fn motion_target(&self, motion: Motion) -> (res: Position)
        requires
            self@.wf(),
        ensures
            res == motion_spec(self@.buffer, self.cursor, self.preferred_grapheme, motion),
    {
        match motion {
            Motion::Left => movement::left(&self.buffer, self.cursor),
            Motion::Right => movement::right(&self.buffer, self.cursor),
            Motion::Up => movement::up(&self.buffer, self.cursor, self.preferred_grapheme),
            Motion::Down => movement::down(&self.buffer, self.cursor, self.preferred_grapheme),
            Motion::LineStart => movement::line_start(&self.buffer, self.cursor),
            Motion::LineEnd => movement::line_end(&self.buffer, self.cursor),
            Motion::BufferStart => movement::buffer_start(&self.buffer, self.cursor),
            Motion::BufferEnd => movement::buffer_end(&self.buffer, self.cursor),
            Motion::PageUp { rows } => movement::page_up(
                &self.buffer,
                self.cursor,
                self.preferred_grapheme,
                rows,
            ),
            Motion::PageDown { rows } => movement::page_down(
                &self.buffer,
                self.cursor,
                self.preferred_grapheme,
                rows,
            ),
            Motion::WordLeft => movement::word_left(&self.buffer, self.cursor),
            Motion::WordRight => movement::word_right(&self.buffer, self.cursor),
        }
    }

    /// Moves the cursor. With `extend`, keeps or creates a selection anchor.
    pub fn move_cursor(&mut self, motion: Motion, extend: bool)
        requires
            old(self)@.wf(),
        ensures
            final(self)@ == move_cursor_spec(old(self)@, motion, extend),
            final(self)@.wf(),
            motion matches Motion::PageDown { rows } ==> ({
                let c = clamp(old(self)@.buffer, old(self)@.cursor).line as int;
                let last = old(self)@.buffer.lines.len() - 1;
                final(self)@.cursor.line == (if c + rows <= last { c + rows } else { last })
            }),
            motion matches Motion::PageUp { rows } ==> ({
                let c = clamp(old(self)@.buffer, old(self)@.cursor).line as int;
                final(self)@.cursor.line == (if c >= rows { c - rows } else { 0 })
            }),
    {
        proof {
            self.buffer.lemma_line_count_fits();
            match motion {
                Motion::PageDown { rows } => law_page_motions(self@, rows, extend),
                Motion::PageUp { rows } => law_page_motions(self@, rows, extend),
                _ => {},
            }
        }
        self.cursor = self.buffer.clamp_position(self.cursor);
        if !extend {
            if let Some(selection) = self.selection.take() {
                match motion {
                    Motion::Left => {
                        self.set_cursor(selection.range().0, true);
                        return ;
                    },
                    Motion::Right => {
                        self.set_cursor(selection.range().1, true);
                        return ;
                    },
                    _ => {},
                }
            }
        }
        let anchor = if extend {
            Some(
                match self.selection {
                    Some(selection) => selection.anchor,
                    None => self.cursor,
                },
            )
        } else {
            None
        };
        let next = self.motion_target(motion);
        self.set_cursor(next, is_horizontal(motion));
        match anchor {
            Some(anchor) => {
                self.selection = Some(Selection::new(anchor, self.cursor));
            },
            None => {
                self.selection = None;
            },
        }
    }

    /// Selects the full buffer.
    pub fn select_all(&mut self)
        requires
            old(self)@.wf(),
        ensures
            final(self)@ == (EditorState {
                cursor: motion_spec(old(self)@.buffer, old(self).cursor, 0, Motion::BufferEnd),
                preferred_grapheme: motion_spec(
                    old(self)@.buffer,
                    old(self).cursor,
                    0,
                    Motion::BufferEnd,
                ).grapheme,
                selection: Some(
                    Selection {
                        anchor: Position { line: 0, grapheme: 0 },
                        head: motion_spec(old(self)@.buffer, old(self).cursor, 0, Motion::BufferEnd),
                    },
                ),
                ..old(self)@
            }),
    {
        let start = Position::new(0, 0);
        let end = movement::buffer_end(&self.buffer, self.cursor);
        self.cursor = end;
        self.preferred_grapheme = end.grapheme;
        self.selection = Some(Selection::new(start, end));
    }

    /// Moves the cursor to a (clamped) buffer position and clears any
    /// selection — the mouse-click primitive.
    pub fn set_cursor_position(&mut self, position: Position)
        requires
            old(self)@.wf(),
        ensures
            final(self)@ == (EditorState {
                selection: None,
                ..set_cursor_spec(old(self)@, position, true)
            }),
    {
        self.cursor = self.buffer.clamp_position(position);
        self.update_preferred();
        self.selection = None;
    }

    /// Selects a grapheme range and places the cursor at the range end.
    pub fn select_range(&mut self, start: Position, end: Position)
        requires
            old(self)@.wf(),
        ensures
            final(self)@ == select_range_spec(old(self)@, start, end),
    {
        let start = self.buffer.clamp_position(start);
        let end = self.buffer.clamp_position(end);
        self.cursor = end;
        self.update_preferred();
        self.selection = Some(Selection::new(start, end));
    }

    /// Forces a boundary before the next undoable edit.
    pub fn commit_group(&mut self)
        ensures
            final(self)@ == (EditorState {
                undo: UndoView { force_boundary: true, ..old(self)@.undo },
                ..old(self)@
            }),
    {
        self.undo.commit_group();
    }

    /// Undoes one group and restores the group's starting cursor and selection.
    pub fn undo(&mut self) -> (res: bool)
        requires
            old(self)@.wf(),
        ensures
            final(self)@.wf(),
            res == (old(self)@.undo.undo.len() > 0),
            final(self)@ == undo_spec(old(self)@),
    {
        match self.undo.undo(&mut self.buffer) {
            Some((cursor, selection)) => {
                self.selection = selection;
                self.set_cursor(cursor, true);
                true
            },
            None => false,
        }
    }

    /// Redoes one group and restores the group's ending cursor and selection.
    pub fn redo(&mut self) -> (res: bool)
        requires
            old(self)@.wf(),
        ensures
            final(self)@.wf(),
            res == (old(self)@.undo.redo.len() > 0),
            final(self)@ == redo_spec(old(self)@),
    {
        match self.undo.redo(&mut self.buffer) {
            Some((cursor, selection)) => {
                self.selection = selection;
                self.set_cursor(cursor, true);
                true
            },
            None => false,
        }
    }
}


/// An undo group without selection state.
pub open spec fn group_spec(
    forward: Seq<OpView>,
    inverse: Seq<OpView>,
    before: Position,
    after: Position,
    kind: EditKind,
    merge_start: Position,
    merge_end: Position,
    has_newline: bool,
) -> GroupView {
    GroupView {
        forward,
        inverse,
        cursor_before: before,
        cursor_after: after,
        selection_before: None,
        selection_after: None,
        merge: MergeInfo { kind, start: merge_start, end: merge_end, text_has_newline: has_newline },
    }
}

/// The selection's range when it selects something.
pub open spec fn nonempty_range(sel: Option<Selection>) -> Option<(Position, Position)> {
    match sel {
        Some(s) => if s.anchor != s.head {
            Some(sel_range(s))
        } else {
            None
        },
        None => None,
    }
}

/// The editor after deleting `start..end` as one recorded group whose cursor
/// lands on `cursor_after`; nothing is recorded when nothing was removed.
pub open spec fn delete_recorded_spec(
    e: EditorState,
    start: Position,
    end: Position,
    cursor_after: Position,
    kind: EditKind,
) -> EditorState {
    let (b, d) = delete_spec(e.buffer, start, end);
    if d.len() == 0 {
        EditorState { buffer: b, ..e }
    } else {
        let c = clamp(b, cursor_after);
        EditorState {
            buffer: b,
            cursor: c,
            preferred_grapheme: c.grapheme,
            undo: record_spec(
                e.undo,
                group_spec(
                    seq![OpView::Delete { start, end }],
                    seq![OpView::Insert { pos: start, text: decode_utf8(d) }],
                    e.cursor,
                    c,
                    kind,
                    start,
                    end,
                    false,
                ),
            ),
            ..e
        }
    }
}

/// The editor after `insert_text(text)`.
pub open spec fn insert_text_spec(e: EditorState, text: Seq<char>) -> EditorState {
    let bytes = encode_utf8(text);
    if text.len() == 0 {
        e
    } else {
        match nonempty_range(e.selection) {
            Some((start, end)) => {
                let (b1, d) = delete_spec(e.buffer, start, end);
                let (b2, after) = insert_spec(b1, start, bytes);
                EditorState {
                    buffer: b2,
                    cursor: after,
                    preferred_grapheme: after.grapheme,
                    selection: None,
                    undo: record_spec(
                        e.undo,
                        group_spec(
                            seq![OpView::Delete { start, end }, OpView::Insert { pos: start, text }],
                            seq![
                                OpView::Insert { pos: start, text: decode_utf8(d) },
                                OpView::Delete { start, end: after },
                            ],
                            e.cursor,
                            after,
                            EditKind::Other,
                            start,
                            after,
                            true,
                        ),
                    ),
                }
            },
            None => {
                let (b1, after) = insert_spec(e.buffer, e.cursor, bytes);
                EditorState {
                    buffer: b1,
                    cursor: after,
                    preferred_grapheme: after.grapheme,
                    selection: None,
                    undo: record_spec(
                        e.undo,
                        group_spec(
                            seq![OpView::Insert { pos: e.cursor, text }],
                            seq![OpView::Delete { start: e.cursor, end: after }],
                            e.cursor,
                            after,
                            EditKind::Insert,
                            e.cursor,
                            after,
                            bytes.contains(10u8),
                        ),
                    ),
                }
            },
        }
    }
}

/// Deleting the selection as one group when it selects something; the
/// selection is dropped either way.
pub open spec fn delete_selection_spec(e: EditorState) -> (EditorState, bool) {
    let e0 = EditorState { selection: None, ..e };
    match nonempty_range(e.selection) {
        Some((start, end)) => (delete_recorded_spec(e0, start, end, start, EditKind::Other), true),
        None => (e0, false),
    }
}

/// Deletes the selection, or else `target..cursor` (or `cursor..target` when
/// `forward`) unless the target is the cursor itself.
pub open spec fn delete_toward_spec(e: EditorState, target: Position, forward: bool, kind: EditKind) -> EditorState {
    let (e0, deleted) = delete_selection_spec(e);
    if deleted {
        e0
    } else if target == e.cursor {
        e0
    } else if forward {
        delete_recorded_spec(e0, e.cursor, target, e.cursor, kind)
    } else {
        delete_recorded_spec(e0, target, e.cursor, target, kind)
    }
}

/// The editor after `delete_line`.
pub open spec fn delete_line_spec(e: EditorState) -> EditorState {
    let v = e.buffer;
    let e0 = EditorState { selection: None, ..e };
    let line = if e.cursor.line < v.lines.len() {
        e.cursor.line as int
    } else {
        v.lines.len() - 1
    };
    if v.lines.len() == 1 {
        let start = Position { line: line as usize, grapheme: 0 };
        delete_recorded_spec(
            e0,
            start,
            Position { line: line as usize, grapheme: gcount(v.lines[line]) as usize },
            start,
            EditKind::Other,
        )
    } else if line + 1 < v.lines.len() {
        let start = Position { line: line as usize, grapheme: 0 };
        delete_recorded_spec(
            e0,
            start,
            Position { line: (line + 1) as usize, grapheme: 0 },
            start,
            EditKind::Other,
        )
    } else {
        delete_recorded_spec(
            e0,
            Position { line: (line - 1) as usize, grapheme: gcount(v.lines[line - 1]) as usize },
            Position { line: line as usize, grapheme: gcount(v.lines[line]) as usize },
            Position { line: (line - 1) as usize, grapheme: 0 },
            EditKind::Other,
        )
    }
}

/// The line the cursor is on, kept inside the buffer.
pub open spec fn cursor_line(e: EditorState) -> int {
    if e.cursor.line < e.buffer.lines.len() {
        e.cursor.line as int
    } else {
        e.buffer.lines.len() - 1
    }
}

/// The editor after inserting a line break at `insert_at` and putting the
/// cursor at the start of line `new_line`.
pub open spec fn insert_break_spec(e: EditorState, insert_at: Position, new_line: int) -> EditorState {
    let (b, after_insert) = insert_spec(e.buffer, insert_at, seq![10u8]);
    let c = Position { line: new_line as usize, grapheme: 0 };
    EditorState {
        buffer: b,
        cursor: c,
        preferred_grapheme: 0,
        selection: None,
        undo: record_spec(
            e.undo,
            group_spec(
                seq![OpView::Insert { pos: insert_at, text: seq!['\n'] }],
                seq![OpView::Delete { start: insert_at, end: after_insert }],
                e.cursor,
                c,
                EditKind::Other,
                insert_at,
                after_insert,
                true,
            ),
        ),
    }
}

/// What `copy_text` copies: the selection, or the cursor's line plus LF.
pub open spec fn copy_spec(e: EditorState) -> Seq<u8> {
    match nonempty_range(e.selection) {
        Some((start, end)) => range_text(
            e.buffer,
            normalized(e.buffer, start, end).0,
            normalized(e.buffer, start, end).1,
        ),
        None => e.buffer.lines[cursor_line(e)].push(10u8),
    }
}

/// Texts encode to nothing exactly when they are empty.
pub proof fn lemma_encode_empty(text: Seq<char>)
    ensures
        (encode_utf8(text).len() == 0) == (text.len() == 0),
{
    if text.len() > 0 {
        assert(encode_scalar(text[0] as u32).len() > 0);
    }
}

impl EditorCore {
    #[allow(clippy::too_many_arguments)]
    fn record_group(
        &mut self,
        forward: Vec<EditOp>,
        inverse: Vec<EditOp>,
        cursor_before: Position,
        cursor_after: Position,
        kind: EditKind,
        merge_start: Position,
        merge_end: Position,
        merge_text_has_newline: bool,
    )
        requires
            old(self)@.wf(),
            forall|i: int| 0 <= i < forward@.len() ==> op_ok(#[trigger] forward@[i]@),
            forall|i: int| 0 <= i < inverse@.len() ==> op_ok(#[trigger] inverse@[i]@),
        ensures
            final(self)@ == (EditorState {
                undo: record_spec(
                    old(self)@.undo,
                    group_spec(
                        super::undo::ops_view(forward@),
                        super::undo::ops_view(inverse@),
                        cursor_before,
                        cursor_after,
                        kind,
                        merge_start,
                        merge_end,
                        merge_text_has_newline,
                    ),
                ),
                ..old(self)@
            }),
            final(self)@.wf(),
    {
        let group = EditGroup::new(
            forward,
            inverse,
            cursor_before,
            cursor_after,
            MergeInfo {
                kind,
                start: merge_start,
                end: merge_end,
                text_has_newline: merge_text_has_newline,
            },
        );
        self.undo.record(group);
    }

    fn take_selection_range(&mut self) -> (res: Option<(Position, Position)>)
        ensures
            final(self)@ == (EditorState { selection: None, ..old(self)@ }),
            res == nonempty_range(old(self).selection),
    {
        match self.selection.take() {
            Some(selection) => if !selection.is_empty() {
                Some(selection.range())
            } else {
                None
            },
            None => None,
        }
    }

    fn delete_range_recorded(
        &mut self,
        start: Position,
        end: Position,
        cursor_after: Position,
        kind: EditKind,
    )
        requires
            old(self)@.wf(),
        ensures
            final(self)@ == delete_recorded_spec(old(self)@, start, end, cursor_after, kind),
            final(self)@.wf(),
    {
        let before = self.cursor;
        let deleted = self.buffer.delete_range(start, end);
        proof {
            lemma_encode_empty(deleted@);
            encode_utf8_decode_utf8(deleted@);
        }
        if deleted.as_str().is_empty() {
            return ;
        }
        self.cursor = self.buffer.clamp_position(cursor_after);
        self.update_preferred();
        let mut forward: Vec<EditOp> = Vec::new();
        forward.push(EditOp::Delete { start, end });
        let mut inverse: Vec<EditOp> = Vec::new();
        inverse.push(EditOp::Insert { pos: start, text: deleted });
        let cursor = self.cursor;
        assert(super::undo::ops_view(forward@) =~= seq![OpView::Delete { start, end }]);
        assert(super::undo::ops_view(inverse@) =~= seq![
            OpView::Insert {
                pos: start,
                text: decode_utf8(delete_spec(old(self)@.buffer, start, end).1),
            },
        ]);
        self.record_group(forward, inverse, before, cursor, kind, start, end, false);
    }
}


fn contains_newline(text: &str) -> (res: bool)
    ensures
        res == encode_utf8(text@).contains(10u8),
{
    let bytes = text.as_bytes();
    let ghost b = bytes@;
    let mut i: usize = 0;
    while i < bytes.len()
        invariant
            b == bytes@,
            b == encode_utf8(text@),
            i <= b.len(),
            forall|k: int| 0 <= k < i ==> b[k] != 10u8,
        decreases b.len() - i,
    {
        if bytes[i] == 10u8 {
            assert(b.contains(b[i as int]));
            return true;
        }
        i = i + 1;
    }
    false
}

fn copy_str(text: &str) -> (res: String)
    ensures
        res@ == text@,
{
    text.to_owned()
}

impl EditorCore {
    /// Inserts text, replacing the active selection atomically when present.
    #[verifier::rlimit(30)]
    pub fn insert_text(&mut self, text: &str)
        requires
            old(self)@.wf(),
        ensures
            final(self)@ == insert_text_spec(old(self)@, text@),
            final(self)@.wf(),
    {
        if text.is_empty() {
            return ;
        }
        let ghost e = self@;
        if let Some((start, end)) = self.take_selection_range() {
            let before = self.cursor;
            let deleted = self.buffer.delete_range(start, end);
            let after = self.buffer.insert(start, text);
            self.cursor = after;
            self.update_preferred();
            proof {
                encode_utf8_decode_utf8(deleted@);
            }
            let mut forward: Vec<EditOp> = Vec::new();
            forward.push(EditOp::Delete { start, end });
            forward.push(EditOp::Insert { pos: start, text: copy_str(text) });
            let mut inverse: Vec<EditOp> = Vec::new();
            inverse.push(EditOp::Insert { pos: start, text: deleted });
            inverse.push(EditOp::Delete { start, end: after });
            assert(super::undo::ops_view(forward@) =~= seq![
                OpView::Delete { start, end },
                OpView::Insert { pos: start, text: text@ },
            ]);
            assert(super::undo::ops_view(inverse@) =~= seq![
                OpView::Insert { pos: start, text: decode_utf8(delete_spec(e.buffer, start, end).1) },
                OpView::Delete { start, end: after },
            ]);
            self.record_group(forward, inverse, before, after, EditKind::Other, start, after, true);
            return ;
        }
        let before = self.cursor;
        let after = self.buffer.insert(before, text);
        self.cursor = after;
        self.update_preferred();
        let has_newline = contains_newline(text);
        let mut forward: Vec<EditOp> = Vec::new();
        forward.push(EditOp::Insert { pos: before, text: copy_str(text) });
        let mut inverse: Vec<EditOp> = Vec::new();
        inverse.push(EditOp::Delete { start: before, end: after });
        assert(super::undo::ops_view(forward@) =~= seq![OpView::Insert { pos: before, text: text@ }]);
        assert(super::undo::ops_view(inverse@) =~= seq![OpView::Delete { start: before, end: after }]);
        self.record_group(
            forward,
            inverse,
            before,
            after,
            EditKind::Insert,
            before,
            after,
            has_newline,
        );
    }

    fn delete_selection_as_group(&mut self) -> (res: bool)
        requires
            old(self)@.wf(),
        ensures
            (final(self)@, res) == delete_selection_spec(old(self)@),
            final(self)@.wf(),
    {
        if let Some((start, end)) = self.take_selection_range() {
            self.delete_range_recorded(start, end, start, EditKind::Other);
            true
        } else {
            false
        }
    }

    /// Deletes the selection, previous grapheme, or joins with the previous line.
    pub fn backspace(&mut self)
        requires
            old(self)@.wf(),
        ensures
            final(self)@ == delete_toward_spec(
                old(self)@,
                left_spec(old(self)@.buffer, old(self).cursor),
                false,
                EditKind::Backspace,
            ),
            final(self)@.wf(),
    {
        let target = movement::left(&self.buffer, self.cursor);
        self.delete_toward(target, false, EditKind::Backspace);
    }

    /// Deletes the selection, next grapheme, or joins with the next line.
    pub fn delete_forward(&mut self)
        requires
            old(self)@.wf(),
        ensures
            final(self)@ == delete_toward_spec(
                old(self)@,
                right_spec(old(self)@.buffer, old(self).cursor),
                true,
                EditKind::Other,
            ),
            final(self)@.wf(),
    {
        let target = movement::right(&self.buffer, self.cursor);
        self.delete_toward(target, true, EditKind::Other);
    }

    /// Deletes from the previous word boundary to the cursor.
    pub fn delete_word_left(&mut self)
        requires
            old(self)@.wf(),
        ensures
            final(self)@ == delete_toward_spec(
                old(self)@,
                word_left_spec(old(self)@.buffer, old(self).cursor),
                false,
                EditKind::Other,
            ),
            final(self)@.wf(),
    {
        let target = movement::word_left(&self.buffer, self.cursor);
        self.delete_toward(target, false, EditKind::Other);
    }

    /// Deletes from the current cursor position back to the start of the line.
    pub fn delete_to_line_start(&mut self)
        requires
            old(self)@.wf(),
        ensures
            final(self)@ == delete_toward_spec(
                old(self)@,
                Position { line: clamp(old(self)@.buffer, old(self).cursor).line, grapheme: 0 },
                false,
                EditKind::Other,
            ),
            final(self)@.wf(),
    {
        let target = movement::line_start(&self.buffer, self.cursor);
        self.delete_toward(target, false, EditKind::Other);
    }

    /// Deletes from the cursor to the next word boundary.
    pub fn delete_word_right(&mut self)
        requires
            old(self)@.wf(),
        ensures
            final(self)@ == delete_toward_spec(
                old(self)@,
                word_right_spec(old(self)@.buffer, old(self).cursor),
                true,
                EditKind::Other,
            ),
            final(self)@.wf(),
    {
        let target = movement::word_right(&self.buffer, self.cursor);
        self.delete_toward(target, true, EditKind::Other);
    }

    /// The selection, or else the span between the cursor and `target`, as
    /// one recorded deletion.
    fn delete_toward(&mut self, target: Position, forward: bool, kind: EditKind)
        requires
            old(self)@.wf(),
        ensures
            final(self)@ == delete_toward_spec(old(self)@, target, forward, kind),
            final(self)@.wf(),
    {
        if self.delete_selection_as_group() {
            return ;
        }
        let cursor = self.cursor;
        if target == cursor {
            return ;
        }
        if forward {
            self.delete_range_recorded(cursor, target, cursor, kind);
        } else {
            self.delete_range_recorded(target, cursor, target, kind);
        }
    }

    /// Deletes the current line. A single-line buffer keeps one empty line;
    /// deleting the last line of a multi-line buffer removes the line together
    /// with its preceding newline.
    pub fn delete_line(&mut self)
        requires
            old(self)@.wf(),
        ensures
            final(self)@ == delete_line_spec(old(self)@),
            final(self)@.wf(),
    {
        self.selection = None;
        let count = self.buffer.line_count();
        let line = if self.cursor.line < count {
            self.cursor.line
        } else {
            count - 1
        };
        if count == 1 {
            let start = Position::new(line, 0);
            let end = Position::new(line, self.buffer.grapheme_count(line));
            self.delete_range_recorded(start, end, start, EditKind::Other);
        } else if line + 1 < count {
            let start = Position::new(line, 0);
            self.delete_range_recorded(start, Position::new(line + 1, 0), start, EditKind::Other);
        } else {
            let start = Position::new(line - 1, self.buffer.grapheme_count(line - 1));
            let end = Position::new(line, self.buffer.grapheme_count(line));
            self.delete_range_recorded(start, end, Position::new(line - 1, 0), EditKind::Other);
        }
    }

    /// Inserts an empty line after the current line and moves the cursor there.
    pub fn insert_line_after(&mut self)
        requires
            old(self)@.wf(),
        ensures
            final(self)@ == insert_break_spec(
                old(self)@,
                Position {
                    line: cursor_line(old(self)@) as usize,
                    grapheme: gcount(old(self)@.buffer.lines[cursor_line(old(self)@)]) as usize,
                },
                cursor_line(old(self)@) + 1,
            ),
            final(self)@.wf(),
    {
        let count = self.buffer.line_count();
        let line = if self.cursor.line < count {
            self.cursor.line
        } else {
            count - 1
        };
        let insert_at = Position::new(line, self.buffer.grapheme_count(line));
        self.insert_break(insert_at, line + 1);
    }

    /// Inserts an empty line before the current line and moves the cursor there.
    pub fn insert_line_before(&mut self)
        requires
            old(self)@.wf(),
        ensures
            final(self)@ == insert_break_spec(
                old(self)@,
                Position { line: cursor_line(old(self)@) as usize, grapheme: 0 },
                cursor_line(old(self)@),
            ),
            final(self)@.wf(),
    {
        let count = self.buffer.line_count();
        let line = if self.cursor.line < count {
            self.cursor.line
        } else {
            count - 1
        };
        self.insert_break(Position::new(line, 0), line);
    }

    fn insert_break(&mut self, insert_at: Position, new_line: usize)
        requires
            old(self)@.wf(),
        ensures
            final(self)@ == insert_break_spec(old(self)@, insert_at, new_line as int),
            final(self)@.wf(),
    {
        self.selection = None;
        let before = self.cursor;
        let newline = super::unicode::newline();
        let after_insert = self.buffer.insert(insert_at, newline);
        self.cursor = Position::new(new_line, 0);
        self.update_preferred();
        let mut forward: Vec<EditOp> = Vec::new();
        forward.push(EditOp::Insert { pos: insert_at, text: copy_str(newline) });
        let mut inverse: Vec<EditOp> = Vec::new();
        inverse.push(EditOp::Delete { start: insert_at, end: after_insert });
        assert(super::undo::ops_view(forward@) =~= seq![OpView::Insert { pos: insert_at, text: seq!['\n'] }]);
        assert(super::undo::ops_view(inverse@) =~= seq![OpView::Delete { start: insert_at, end: after_insert }]);
        let cursor = self.cursor;
        self.record_group(
            forward,
            inverse,
            before,
            cursor,
            EditKind::Other,
            insert_at,
            after_insert,
            true,
        );
    }

    /// Returns the selected text, or the current logical line plus LF when no
    /// selection is active (line copy).
    pub fn copy_text(&self) -> (res: Option<String>)
        requires
            self@.wf(),
        ensures
            res matches Some(text) && encode_utf8(text@) == copy_spec(self@),
    {
        if let Some(selection) = self.selection {
            if !selection.is_empty() {
                let (start, end) = selection.range();
                return Some(self.buffer.text_range(start, end));
            }
        }
        let count = self.buffer.line_count();
        let line = if self.cursor.line < count {
            self.cursor.line
        } else {
            count - 1
        };
        let text = match self.buffer.line(line) {
            Some(text) => text,
            None => "",
        };
        let mut bytes = vstd::slice::slice_to_vec(text.as_bytes());
        bytes.push(10u8);
        proof {
            super::buffer::lemma_valid_line_break(self@.buffer.lines[line as int]);
        }
        Some(super::buffer::string_from_bytes(bytes))
    }

    /// Cuts the selected text, or the current logical line when no selection is
    /// active. The deletion is recorded as one undo group.
    pub fn cut(&mut self) -> (res: Option<String>)
        requires
            old(self)@.wf(),
        ensures
            res matches Some(text) && encode_utf8(text@) == copy_spec(old(self)@),
            final(self)@ == if nonempty_range(old(self)@.selection) is Some {
                delete_selection_spec(old(self)@).0
            } else {
                delete_line_spec(old(self)@)
            },
            final(self)@.wf(),
    {
        let copied = self.copy_text();
        let has_selection = match self.selection {
            Some(selection) => !selection.is_empty(),
            None => false,
        };
        if has_selection {
            self.delete_selection_as_group();
        } else {
            self.delete_line();
        }
        copied
    }
}


/// The inclusive line block an operation works on: every line the non-empty
/// selection touches (a selection ending at a line start leaves that line
/// out), or the cursor's line.
pub open spec fn selected_block_spec(e: EditorState) -> (int, int) {
    let last = e.buffer.lines.len() - 1;
    match nonempty_range(e.selection) {
        Some((start, end)) => {
            let end_line = if end.grapheme == 0 && end.line > start.line {
                end.line - 1
            } else {
                end.line as int
            };
            (
                if start.line <= last {
                    start.line as int
                } else {
                    last
                },
                if end_line <= last {
                    end_line
                } else {
                    last
                },
            )
        },
        None => (cursor_line(e), cursor_line(e)),
    }
}

/// A group that also restores selections.
pub open spec fn line_group_spec(
    start: usize,
    old: Seq<Seq<char>>,
    new: Seq<Seq<char>>,
    cursor_before: Position,
    selection_before: Option<Selection>,
    cursor_after: Position,
    selection_after: Option<Selection>,
) -> GroupView {
    GroupView {
        forward: seq![OpView::ReplaceLines { start, old, new }],
        inverse: seq![OpView::ReplaceLines { start, old: new, new: old }],
        cursor_before,
        cursor_after,
        selection_before,
        selection_after,
        merge: MergeInfo {
            kind: EditKind::Other,
            start: cursor_before,
            end: cursor_after,
            text_has_newline: true,
        },
    }
}

/// Both ends of a selection moved by `delta` lines.
pub open spec fn shift_selection(sel: Option<Selection>, delta: int) -> Option<Selection> {
    match sel {
        Some(s) => Some(
            Selection { anchor: shift_line_spec(s.anchor, delta), head: shift_line_spec(s.head, delta) },
        ),
        None => None,
    }
}

/// The editor after replacing lines `first..first + old.len()` by `new`,
/// moving cursor and selection by `delta` lines.
pub open spec fn move_block_spec(
    e: EditorState,
    first: int,
    old: Seq<Seq<char>>,
    new: Seq<Seq<char>>,
    delta: int,
) -> EditorState {
    let v = e.buffer;
    let c = shift_line_spec(e.cursor, delta);
    let sel = shift_selection(e.selection, delta);
    EditorState {
        buffer: with_lines(
            v,
            nonempty_lines(v.lines.take(first) + encoded(new) + v.lines.skip(first + old.len())),
        ),
        cursor: c,
        preferred_grapheme: c.grapheme,
        selection: sel,
        undo: record_spec(
            e.undo,
            line_group_spec(first as usize, old, new, e.cursor, e.selection, c, sel),
        ),
    }
}

/// The editor after `move_lines_up`.
pub open spec fn move_lines_up_spec(e: EditorState) -> EditorState {
    let (first, last) = selected_block_spec(e);
    let lines = decoded(e.buffer.lines);
    if first == 0 {
        e
    } else {
        move_block_spec(
            e,
            first - 1,
            lines.subrange(first - 1, last + 1),
            lines.subrange(first, last + 1).push(lines[first - 1]),
            -1,
        )
    }
}

/// The editor after `move_lines_down`.
pub open spec fn move_lines_down_spec(e: EditorState) -> EditorState {
    let (first, last) = selected_block_spec(e);
    let lines = decoded(e.buffer.lines);
    if last + 1 >= e.buffer.lines.len() {
        e
    } else {
        move_block_spec(
            e,
            first,
            lines.subrange(first, last + 2),
            seq![lines[last + 1]] + lines.subrange(first, last + 1),
            1,
        )
    }
}

fn strings_equal(a: &Vec<String>, b: &Vec<String>) -> (res: bool)
    ensures
        res == (strings_view(a@) == strings_view(b@)),
{
    if a.len() != b.len() {
        assert(strings_view(a@).len() != strings_view(b@).len());
        return false;
    }
    let mut i: usize = 0;
    while i < a.len()
        invariant
            a@.len() == b@.len(),
            i <= a@.len(),
            forall|k: int| 0 <= k < i ==> a@[k]@ == b@[k]@,
        decreases a@.len() - i,
    {
        if a[i] != b[i] {
            assert(strings_view(a@)[i as int] != strings_view(b@)[i as int]);
            return false;
        }
        i = i + 1;
    }
    assert(strings_view(a@) =~= strings_view(b@));
    true
}

impl EditorCore {
    fn selected_line_block(&self) -> (res: Option<(usize, usize)>)
        requires
            self@.wf(),
        ensures
            res matches Some((first, last)) && first == selected_block_spec(self@).0 && last
                == selected_block_spec(self@).1,
            selected_block_spec(self@).0 <= selected_block_spec(self@).1 < self@.buffer.lines.len(),
    {
        let line_count = self.buffer.line_count();
        if let Some(selection) = self.selection {
            if !selection.is_empty() {
                let (start, end) = selection.range();
                let end_line = if end.grapheme == 0 && end.line > start.line {
                    end.line - 1
                } else {
                    end.line
                };
                let first = if start.line <= line_count - 1 {
                    start.line
                } else {
                    line_count - 1
                };
                let last = if end_line <= line_count - 1 {
                    end_line
                } else {
                    line_count - 1
                };
                return Some((first, last));
            }
        }
        let line = if self.cursor.line <= line_count - 1 {
            self.cursor.line
        } else {
            line_count - 1
        };
        Some((line, line))
    }

    fn lines_inclusive(&self, start: usize, end: usize) -> (res: Vec<String>)
        requires
            self@.wf(),
            start <= end < self@.buffer.lines.len(),
        ensures
            strings_view(res@) == decoded(self@.buffer.lines).subrange(start as int, end + 1),
            storable(strings_view(res@)),
    {
        let mut out: Vec<String> = Vec::new();
        let mut i = start;
        let count = self.buffer.line_count();
        let ghost lines = decoded(self@.buffer.lines);
        proof {
            lemma_decoded_storable(self@.buffer.lines);
        }
        while i <= end
            invariant
                self@.wf(),
                lines == decoded(self@.buffer.lines),
                storable(lines),
                start <= i <= end + 1,
                end < self@.buffer.lines.len(),
                count == self@.buffer.lines.len(),
                strings_view(out@) == lines.subrange(start as int, i as int),
            decreases end + 1 - i,
        {
            let text = match self.buffer.line(i) {
                Some(text) => text,
                None => "",
            };
            proof {
                encode_utf8_decode_utf8(text@);
            }
            let ghost before = out@;
            let owned = copy_str(text);
            out.push(owned);
            assert(strings_view(out@) =~= strings_view(before).push(owned@));
            assert(lines.subrange(start as int, i + 1) =~= lines.subrange(start as int, i as int).push(
                lines[i as int],
            ));
            i = i + 1;
        }
        out
    }

    fn record_line_replace_group(
        &mut self,
        start: usize,
        old_lines: Vec<String>,
        new_lines: Vec<String>,
        cursor_before: Position,
        selection_before: Option<Selection>,
    )
        requires
            old(self)@.wf(),
            storable(strings_view(old_lines@)),
            storable(strings_view(new_lines@)),
        ensures
            final(self)@ == (EditorState {
                undo: record_spec(
                    old(self)@.undo,
                    line_group_spec(
                        start,
                        strings_view(old_lines@),
                        strings_view(new_lines@),
                        cursor_before,
                        selection_before,
                        old(self).cursor,
                        old(self).selection,
                    ),
                ),
                ..old(self)@
            }),
            final(self)@.wf(),
    {
        let ghost ov = strings_view(old_lines@);
        let ghost nv = strings_view(new_lines@);
        let old_copy = super::undo::clone_strings(&old_lines);
        let new_copy = super::undo::clone_strings(&new_lines);
        let mut forward: Vec<EditOp> = Vec::new();
        forward.push(EditOp::ReplaceLines { start, old: old_lines, new: new_lines });
        let mut inverse: Vec<EditOp> = Vec::new();
        inverse.push(EditOp::ReplaceLines { start, old: new_copy, new: old_copy });
        let group = EditGroup::new(
            forward,
            inverse,
            cursor_before,
            self.cursor,
            MergeInfo {
                kind: EditKind::Other,
                start: cursor_before,
                end: self.cursor,
                text_has_newline: true,
            },
        ).with_selection(selection_before, self.selection);
        assert(group@.forward =~= seq![OpView::ReplaceLines { start, old: ov, new: nv }]);
        assert(group@.inverse =~= seq![OpView::ReplaceLines { start, old: nv, new: ov }]);
        self.undo.record(group);
    }

    /// Moves the cursor line or selected line block up by one logical line.
    pub fn move_lines_up(&mut self)
        requires
            old(self)@.wf(),
        ensures
            final(self)@ == move_lines_up_spec(old(self)@),
            final(self)@.wf(),
            ({
                let r = nonempty_range(old(self)@.selection);
                r is Some && r.unwrap().1.grapheme == 0 && r.unwrap().0.line < r.unwrap().1.line
                    && r.unwrap().1.line < old(self)@.buffer.lines.len()
                    ==> final(self)@.buffer.lines[r.unwrap().1.line as int] == old(self)@.buffer.lines[r.unwrap().1.line as int]
            }),
    {
        proof {
            let r = nonempty_range(self@.selection);
            if r is Some && r.unwrap().1.grapheme == 0 && r.unwrap().0.line < r.unwrap().1.line
                && r.unwrap().1.line < self@.buffer.lines.len() {
                law_block_ends_before_line_selected_to_its_start(self@, false);
            }
        }
        let (start_line, end_line) = match self.selected_line_block() {
            Some(block) => block,
            None => return ,
        };
        if start_line == 0 {
            return ;
        }
        let count = self.buffer.line_count();
        assert(end_line < count);
        let ghost e = self@;
        let before_cursor = self.cursor;
        let before_selection = self.selection;
        let old_lines = self.lines_inclusive(start_line - 1, end_line);
        let mut new_lines = self.lines_inclusive(start_line, end_line);
        let first_old = old_lines[0].clone();
        let ghost lines = decoded(e.buffer.lines);
        let ghost before_push = new_lines@;
        assert(first_old@ == strings_view(old_lines@)[0]);
        new_lines.push(first_old);
        assert(strings_view(new_lines@) =~= strings_view(before_push).push(first_old@));
        assert(strings_view(new_lines@) =~= lines.subrange(start_line as int, end_line + 1).push(
            lines[start_line - 1],
        ));
        proof {
            lemma_decoded_storable(e.buffer.lines);
        }
        let replacement = super::undo::clone_strings(&new_lines);
        self.buffer.replace_lines(start_line - 1, end_line + 1, replacement);
        self.cursor = shift_line(self.cursor, true);
        self.selection = match self.selection {
            Some(selection) => Some(
                Selection::new(shift_line(selection.anchor, true), shift_line(selection.head, true)),
            ),
            None => None,
        };
        self.update_preferred();
        self.record_line_replace_group(start_line - 1, old_lines, new_lines, before_cursor, before_selection);
    }

    /// Moves the cursor line or selected line block down by one logical line.
    pub fn move_lines_down(&mut self)
        requires
            old(self)@.wf(),
        ensures
            final(self)@ == move_lines_down_spec(old(self)@),
            final(self)@.wf(),
            ({
                let r = nonempty_range(old(self)@.selection);
                r is Some && r.unwrap().1.grapheme == 0 && r.unwrap().0.line < r.unwrap().1.line
                    && r.unwrap().1.line < old(self)@.buffer.lines.len()
                    ==> final(self)@.buffer.lines[r.unwrap().0.line as int] == old(self)@.buffer.lines[r.unwrap().1.line as int]
            }),
    {
        proof {
            let r = nonempty_range(self@.selection);
            if r is Some && r.unwrap().1.grapheme == 0 && r.unwrap().0.line < r.unwrap().1.line
                && r.unwrap().1.line < self@.buffer.lines.len() {
                law_block_ends_before_line_selected_to_its_start(self@, false);
            }
        }
        let (start_line, end_line) = match self.selected_line_block() {
            Some(block) => block,
            None => return ,
        };
        let count = self.buffer.line_count();
        if end_line + 1 >= count {
            return ;
        }
        let ghost e = self@;
        let before_cursor = self.cursor;
        let before_selection = self.selection;
        let old_lines = self.lines_inclusive(start_line, end_line + 1);
        let mut new_lines: Vec<String> = Vec::new();
        let ghost lines = decoded(e.buffer.lines);
        let last_old = old_lines[old_lines.len() - 1].clone();
        assert(last_old@ == strings_view(old_lines@)[old_lines@.len() - 1]);
        new_lines.push(last_old);
        assert(strings_view(new_lines@) =~= seq![lines[end_line + 1]] + lines.subrange(
            start_line as int,
            start_line as int,
        ));
        let mut i: usize = 0;
        while i < old_lines.len() - 1
            invariant
                strings_view(old_lines@) == lines.subrange(start_line as int, end_line + 2),
                end_line + 1 < e.buffer.lines.len(),
                lines.len() == e.buffer.lines.len(),
                start_line <= end_line,
                old_lines@.len() == end_line + 2 - start_line,
                i <= old_lines@.len() - 1,
                strings_view(new_lines@) == seq![lines[end_line + 1]] + lines.subrange(
                    start_line as int,
                    start_line + i,
                ),
            decreases old_lines@.len() - 1 - i,
        {
            let ghost before = new_lines@;
            let item = old_lines[i].clone();
            assert(item@ == strings_view(old_lines@)[i as int]);
            new_lines.push(item);
            assert(strings_view(new_lines@) =~= strings_view(before).push(item@));
            assert(lines.subrange(start_line as int, start_line + i + 1) =~= lines.subrange(
                start_line as int,
                start_line + i,
            ).push(lines[start_line + i]));
            i = i + 1;
        }
        proof {
            lemma_decoded_storable(e.buffer.lines);
            assert(storable(strings_view(new_lines@)));
        }
        let replacement = super::undo::clone_strings(&new_lines);
        self.buffer.replace_lines(start_line, end_line + 2, replacement);
        self.cursor = shift_line(self.cursor, false);
        self.selection = match self.selection {
            Some(selection) => Some(
                Selection::new(shift_line(selection.anchor, false), shift_line(selection.head, false)),
            ),
            None => None,
        };
        self.update_preferred();
        self.record_line_replace_group(start_line, old_lines, new_lines, before_cursor, before_selection);
    }
}


/// Leading space bytes of `line`, counting at most `limit` of them.
pub open spec fn leading_spaces(line: Seq<u8>, limit: nat) -> nat
    decreases limit,
{
    if limit == 0 || line.len() == 0 || line[0] != 32u8 {
        0
    } else {
        1 + leading_spaces(line.drop_first(), (limit - 1) as nat)
    }
}

/// A stored line after indenting (four spaces in front) or outdenting (one
/// leading tab, or else up to four leading spaces, removed), with the signed
/// column change that applies on that line.
pub open spec fn indent_line_spec(line: Seq<u8>, outdent: bool) -> (Seq<u8>, int) {
    if !outdent {
        (seq![32u8, 32u8, 32u8, 32u8] + line, INDENT_WIDTH as int)
    } else if line.len() > 0 && line[0] == 9u8 {
        (line.drop_first(), -1)
    } else {
        let k = leading_spaces(line, INDENT_WIDTH as nat);
        (line.skip(k as int), -k)
    }
}

/// The stored lines of the current line block after indenting or outdenting.
pub open spec fn indented_block(e: EditorState, outdent: bool) -> Seq<Seq<u8>> {
    let (first, last) = selected_block_spec(e);
    e.buffer.lines.subrange(first, last + 1).map_values(|l: Seq<u8>| indent_line_spec(l, outdent).0)
}

/// A position on a rewritten line moved by that line's column change.
pub open spec fn indent_shift_spec(v: BufferView, pos: Position, first: int, last: int, outdent: bool) -> Position {
    if pos.line < first || pos.line > last {
        pos
    } else {
        Position {
            line: pos.line,
            grapheme: sat_add_signed(pos.grapheme, indent_line_spec(v.lines[pos.line as int], outdent).1),
        }
    }
}

/// The editor after `indent` (`outdent == false`) or `outdent`: when some line
/// of the block changes, the block is rewritten, cursor and selection move by
/// their line's column change and are clamped, and one line group is recorded.
pub open spec fn line_indent_spec(e: EditorState, outdent: bool) -> EditorState {
    let (first, last) = selected_block_spec(e);
    let v = e.buffer;
    let block = v.lines.subrange(first, last + 1);
    let changed = indented_block(e, outdent);
    if changed == block {
        e
    } else {
        let v2 = with_lines(v, nonempty_lines(v.lines.take(first) + changed + v.lines.skip(last + 1)));
        let c = clamp(v2, indent_shift_spec(v, e.cursor, first, last, outdent));
        let sel = match e.selection {
            Some(s) => Some(
                Selection {
                    anchor: clamp(v2, indent_shift_spec(v, s.anchor, first, last, outdent)),
                    head: clamp(v2, indent_shift_spec(v, s.head, first, last, outdent)),
                },
            ),
            None => None,
        };
        EditorState {
            buffer: v2,
            cursor: c,
            preferred_grapheme: c.grapheme,
            selection: sel,
            undo: record_spec(
                e.undo,
                line_group_spec(first as usize, decoded(block), decoded(changed), e.cursor, e.selection, c, sel),
            ),
        }
    }
}

/// An ASCII byte in front of valid UTF-8 keeps it valid.
proof fn lemma_ascii_prefix(b: u8, s: Seq<u8>)
    requires
        b < 0x80,
        valid_utf8(s),
    ensures
        valid_utf8(seq![b] + s),
{
    let t = seq![b] + s;
    assert(t[0] == b);
    assert(leading_bits_width_1(b) <= 0x7f) by (bit_vector)
        requires
            b < 0x80,
    ;
    assert(valid_first_scalar(t));
    assert(pop_first_scalar(t) =~= s);
}

/// Leading spaces never outnumber the limit or the line.
proof fn lemma_leading_spaces(line: Seq<u8>, limit: nat)
    ensures
        leading_spaces(line, limit) <= limit,
        leading_spaces(line, limit) <= line.len(),
        forall|i: int| 0 <= i < leading_spaces(line, limit) ==> line[i] == 32u8,
        leading_spaces(line, limit) < limit && leading_spaces(line, limit) < line.len() ==> line[leading_spaces(line, limit) as int] != 32u8,
    decreases limit,
{
    if limit == 0 || line.len() == 0 || line[0] != 32u8 {
    } else {
        lemma_leading_spaces(line.drop_first(), (limit - 1) as nat);
        let k = leading_spaces(line, limit);
        assert forall|i: int| 0 <= i < k implies line[i] == 32u8 by {
            if i > 0 {
                assert(line[i] == line.drop_first()[i - 1]);
            }
        }
        if k < limit && k < line.len() {
            assert(line[k as int] == line.drop_first()[k - 1]);
        }
    }
}

/// Indenting or outdenting keeps a line storable.
pub proof fn lemma_indent_line_ok(line: Seq<u8>, outdent: bool)
    requires
        line_ok(line),
    ensures
        line_ok(indent_line_spec(line, outdent).0),
        -(INDENT_WIDTH as int) <= indent_line_spec(line, outdent).1 <= INDENT_WIDTH as int,
{
    if !outdent {
        lemma_ascii_prefix(32u8, line);
        lemma_ascii_prefix(32u8, seq![32u8] + line);
        lemma_ascii_prefix(32u8, seq![32u8] + (seq![32u8] + line));
        lemma_ascii_prefix(32u8, seq![32u8] + (seq![32u8] + (seq![32u8] + line)));
        assert(seq![32u8] + (seq![32u8] + (seq![32u8] + (seq![32u8] + line))) =~= seq![
            32u8,
            32u8,
            32u8,
            32u8,
        ] + line);
    } else if line.len() > 0 && line[0] == 9u8 {
        lemma_ascii_split(line, 0);
        assert(line.subrange(1, line.len() as int) =~= line.drop_first());
    } else {
        lemma_leading_spaces(line, INDENT_WIDTH as nat);
        let k = leading_spaces(line, INDENT_WIDTH as nat);
        if k > 0 {
            lemma_ascii_split(line, k - 1);
            assert(line.subrange(k as int, line.len() as int) =~= line.skip(k as int));
        } else {
            assert(line.skip(0) =~= line);
        }
    }
}

/// The bytes of `line` after indenting or outdenting, with the column change.
fn indent_line(line: &String, outdent: bool) -> (res: (String, isize))
    requires
        line_ok(encode_utf8(line@)),
    ensures
        encode_utf8(res.0@) == indent_line_spec(encode_utf8(line@), outdent).0,
        res.1 as int == indent_line_spec(encode_utf8(line@), outdent).1,
{
    let bytes = string_bytes(line);
    let ghost b = bytes@;
    proof {
        lemma_indent_line_ok(b, outdent);
    }
    let count = bytes.len();
    if !outdent {
        let mut out: Vec<u8> = vec![32u8, 32u8, 32u8, 32u8];
        let mut i: usize = 0;
        while i < count
            invariant
                count == b.len(),
                bytes@ == b,
                i <= count,
                out@ == seq![32u8, 32u8, 32u8, 32u8] + b.subrange(0, i as int),
            decreases count - i,
        {
            out.push(bytes[i]);
            assert(b.subrange(0, i + 1) =~= b.subrange(0, i as int).push(b[i as int]));
            i = i + 1;
        }
        assert(b.subrange(0, count as int) =~= b);
        return (string_from_bytes(out), 4);
    }
    let (skip, delta): (usize, isize) = if count > 0 && bytes[0] == 9u8 {
        (1, -1)
    } else {
        proof {
            lemma_leading_spaces(b, INDENT_WIDTH as nat);
        }
        let mut k: usize = 0;
        while k < INDENT_WIDTH && k < count && bytes[k] == 32u8
            invariant
                count == b.len(),
                bytes@ == b,
                k <= INDENT_WIDTH,
                k <= count,
                k <= leading_spaces(b, INDENT_WIDTH as nat),
                leading_spaces(b, INDENT_WIDTH as nat) <= INDENT_WIDTH,
                forall|j: int| 0 <= j < leading_spaces(b, INDENT_WIDTH as nat) ==> b[j] == 32u8,
                leading_spaces(b, INDENT_WIDTH as nat) < INDENT_WIDTH && leading_spaces(b, INDENT_WIDTH as nat) < b.len()
                    ==> b[leading_spaces(b, INDENT_WIDTH as nat) as int] != 32u8,
            decreases INDENT_WIDTH - k,
        {
            k = k + 1;
        }
        (k, -(k as isize))
    };
    let mut out: Vec<u8> = Vec::new();
    let mut i: usize = skip;
    while i < count
        invariant
            count == b.len(),
            bytes@ == b,
            skip <= i <= count,
            out@ == b.subrange(skip as int, i as int),
        decreases count - i,
    {
        out.push(bytes[i]);
        assert(b.subrange(skip as int, i + 1) =~= b.subrange(skip as int, i as int).push(b[i as int]));
        i = i + 1;
    }
    assert(out@ =~= indent_line_spec(b, outdent).0);
    (string_from_bytes(out), delta)
}

/// The block's stored lines are the encodings of the strings read from it.
proof fn lemma_block_strings(lines: Seq<Seq<u8>>, strs: Seq<Seq<char>>, first: int, last: int)
    requires
        forall|i: int| 0 <= i < lines.len() ==> line_ok(#[trigger] lines[i]),
        0 <= first <= last < lines.len(),
        strs == decoded(lines).subrange(first, last + 1),
    ensures
        strs.len() == last + 1 - first,
        forall|k: int| 0 <= k < strs.len() ==> encode_utf8(#[trigger] strs[k]) == lines[first + k],
        forall|k: int| 0 <= k < strs.len() ==> line_ok(#[trigger] lines.subrange(first, last + 1)[k]),
{
    assert forall|k: int| 0 <= k < strs.len() implies encode_utf8(#[trigger] strs[k]) == lines[first + k] by {
        assert(line_ok(lines[first + k]));
        decode_utf8_encode_utf8(lines[first + k]);
    }
    assert forall|k: int| 0 <= k < strs.len() implies line_ok(#[trigger] lines.subrange(first, last + 1)[k]) by {
        assert(line_ok(lines[first + k]));
    }
}

/// Strings are equal exactly when their encodings are.
proof fn lemma_strings_bytes_eq(a: Seq<Seq<char>>, b: Seq<Seq<char>>, ab: Seq<Seq<u8>>, bb: Seq<Seq<u8>>)
    requires
        a.len() == ab.len(),
        b.len() == bb.len(),
        forall|k: int| 0 <= k < a.len() ==> encode_utf8(#[trigger] a[k]) == ab[k],
        forall|k: int| 0 <= k < b.len() ==> encode_utf8(#[trigger] b[k]) == bb[k],
    ensures
        (a == b) == (ab == bb),
{
    if a == b {
        assert(ab =~= bb) by {
            assert forall|k: int| 0 <= k < ab.len() implies ab[k] == bb[k] by {
                assert(encode_utf8(a[k]) == ab[k]);
                assert(encode_utf8(b[k]) == bb[k]);
            }
        }
    }
    if ab == bb {
        assert(a =~= b) by {
            assert forall|k: int| 0 <= k < a.len() implies a[k] == b[k] by {
                assert(encode_utf8(a[k]) == ab[k]);
                assert(encode_utf8(b[k]) == bb[k]);
                encode_utf8_decode_utf8(a[k]);
                encode_utf8_decode_utf8(b[k]);
            }
        }
    }
}

/// Strings whose encodings are given lines without LF are storable, encode to
/// those lines, and decode back from them.
proof fn lemma_encoded_strings(a: Seq<Seq<char>>, ab: Seq<Seq<u8>>)
    requires
        a.len() == ab.len(),
        forall|k: int| 0 <= k < a.len() ==> encode_utf8(#[trigger] a[k]) == ab[k],
        forall|k: int| 0 <= k < ab.len() ==> no_lf(#[trigger] ab[k]),
    ensures
        storable(a),
        encoded(a) == ab,
        decoded(ab) == a,
{
    assert forall|k: int| 0 <= k < a.len() implies no_lf(encode_utf8(#[trigger] a[k])) by {
        assert(encode_utf8(a[k]) == ab[k]);
        assert(no_lf(ab[k]));
    }
    assert(encoded(a) =~= ab);
    assert forall|k: int| 0 <= k < a.len() implies #[trigger] decoded(ab)[k] == a[k] by {
        assert(encode_utf8(a[k]) == ab[k]);
        encode_utf8_decode_utf8(a[k]);
    }
    assert(decoded(ab) =~= a);
}

/// Indents or outdents every line, returning the new lines and column changes.
fn indent_lines(old_lines: &Vec<String>, outdent: bool, block: Ghost<Seq<Seq<u8>>>) -> (res: (Vec<String>, Vec<isize>))
    requires
        old_lines@.len() == block@.len(),
        forall|k: int| 0 <= k < block@.len() ==> encode_utf8(#[trigger] strings_view(old_lines@)[k]) == block@[k],
        forall|k: int| 0 <= k < block@.len() ==> line_ok(#[trigger] block@[k]),
    ensures
        res.0@.len() == block@.len(),
        res.1@.len() == block@.len(),
        forall|k: int| 0 <= k < block@.len() ==> encode_utf8(#[trigger] strings_view(res.0@)[k]) == indent_line_spec(block@[k], outdent).0,
        forall|k: int| 0 <= k < block@.len() ==> #[trigger] res.1@[k] as int == indent_line_spec(block@[k], outdent).1,
        forall|k: int| 0 <= k < block@.len() ==> #[trigger] res.1@[k] > isize::MIN,
{
    let mut new_lines: Vec<String> = Vec::new();
    let mut deltas: Vec<isize> = Vec::new();
    let n = old_lines.len();
    let mut i: usize = 0;
    while i < n
        invariant
            n == old_lines@.len(),
            n == block@.len(),
            forall|k: int| 0 <= k < block@.len() ==> encode_utf8(#[trigger] strings_view(old_lines@)[k]) == block@[k],
            forall|k: int| 0 <= k < block@.len() ==> line_ok(#[trigger] block@[k]),
            i <= n,
            new_lines@.len() == i,
            deltas@.len() == i,
            forall|k: int| 0 <= k < i ==> encode_utf8(#[trigger] strings_view(new_lines@)[k]) == indent_line_spec(block@[k], outdent).0,
            forall|k: int| 0 <= k < i ==> #[trigger] deltas@[k] as int == indent_line_spec(block@[k], outdent).1,
            forall|k: int| 0 <= k < i ==> #[trigger] deltas@[k] > isize::MIN,
        decreases n - i,
    {
        assert(encode_utf8(strings_view(old_lines@)[i as int]) == block@[i as int]);
        assert(line_ok(block@[i as int]));
        proof {
            lemma_indent_line_ok(block@[i as int], outdent);
        }
        assert(old_lines@[i as int]@ == strings_view(old_lines@)[i as int]);
        let (line, delta) = indent_line(&old_lines[i], outdent);
        let ghost before = new_lines@;
        new_lines.push(line);
        deltas.push(delta);
        assert(strings_view(new_lines@) =~= strings_view(before).push(line@));
        i = i + 1;
    }
    (new_lines, deltas)
}

impl EditorCore {
    /// A position on a rewritten line moved by that line's column change.
    fn indent_shift(
        pos: Position,
        first: usize,
        last: usize,
        deltas: &Vec<isize>,
        outdent: bool,
        v: Ghost<BufferView>,
    ) -> (res: Position)
        requires
            first <= last < v@.lines.len(),
            deltas@.len() == last - first + 1,
            forall|k: int| 0 <= k < deltas@.len() ==> #[trigger] deltas@[k] > isize::MIN,
            forall|k: int|
                0 <= k < deltas@.len() ==> #[trigger] deltas@[k] as int == indent_line_spec(
                    v@.lines[first + k],
                    outdent,
                ).1,
        ensures
            res == indent_shift_spec(v@, pos, first as int, last as int, outdent),
    {
        if pos.line < first || pos.line > last {
            pos
        } else {
            let d = deltas[pos.line - first];
            assert(v@.lines[first + (pos.line - first)] == v@.lines[pos.line as int]);
            Position::new(pos.line, add_signed(pos.grapheme, d))
        }
    }

    /// Indents the current line, or every line touched by the selection, by
    /// [`INDENT_WIDTH`] spaces, as one undo group.
    pub fn indent(&mut self)
        requires
            old(self)@.wf(),
        ensures
            final(self)@ == line_indent_spec(old(self)@, false),
            final(self)@.wf(),
            ({
                let r = nonempty_range(old(self)@.selection);
                r is Some && r.unwrap().1.grapheme == 0 && r.unwrap().0.line < r.unwrap().1.line
                    && r.unwrap().1.line < old(self)@.buffer.lines.len()
                    ==> final(self)@.buffer.lines[r.unwrap().1.line as int] == old(self)@.buffer.lines[r.unwrap().1.line as int]
            }),
    {
        proof {
            let r = nonempty_range(self@.selection);
            if r is Some && r.unwrap().1.grapheme == 0 && r.unwrap().0.line < r.unwrap().1.line
                && r.unwrap().1.line < self@.buffer.lines.len() {
                law_block_ends_before_line_selected_to_its_start(self@, false);
            }
        }
        self.apply_line_indent(false);
    }

    /// Outdents the current line, or every line touched by the selection: each
    /// line loses one leading tab, or else up to [`INDENT_WIDTH`] leading spaces.
    pub fn outdent(&mut self)
        requires
            old(self)@.wf(),
        ensures
            final(self)@ == line_indent_spec(old(self)@, true),
            final(self)@.wf(),
            ({
                let r = nonempty_range(old(self)@.selection);
                r is Some && r.unwrap().1.grapheme == 0 && r.unwrap().0.line < r.unwrap().1.line
                    && r.unwrap().1.line < old(self)@.buffer.lines.len()
                    ==> final(self)@.buffer.lines[r.unwrap().1.line as int] == old(self)@.buffer.lines[r.unwrap().1.line as int]
            }),
    {
        proof {
            let r = nonempty_range(self@.selection);
            if r is Some && r.unwrap().1.grapheme == 0 && r.unwrap().0.line < r.unwrap().1.line
                && r.unwrap().1.line < self@.buffer.lines.len() {
                law_block_ends_before_line_selected_to_its_start(self@, true);
            }
        }
        self.apply_line_indent(true);
    }

    fn apply_line_indent(&mut self, outdent: bool)
        requires
            old(self)@.wf(),
        ensures
            final(self)@ == line_indent_spec(old(self)@, outdent),
            final(self)@.wf(),
    {
        let (start_line, end_line) = match self.selected_line_block() {
            Some(block) => block,
            None => return ,
        };
        let ghost e = self@;
        let ghost block = e.buffer.lines.subrange(start_line as int, end_line + 1);
        let ghost changed = indented_block(e, outdent);
        proof {
            lemma_decoded_storable(e.buffer.lines);
        }
        let old_lines = self.lines_inclusive(start_line, end_line);
        assert(strings_view(old_lines@) == decoded(e.buffer.lines).subrange(start_line as int, end_line + 1));
        proof {
            lemma_block_strings(e.buffer.lines, strings_view(old_lines@), start_line as int, end_line as int);
        }
        let (new_lines, deltas) = indent_lines(&old_lines, outdent, Ghost(block));
        assert(changed =~= block.map_values(|l: Seq<u8>| indent_line_spec(l, outdent).0));
        let same = strings_equal(&new_lines, &old_lines);
        proof {
            lemma_strings_bytes_eq(strings_view(new_lines@), strings_view(old_lines@), changed, block);
        }
        if same {
            return ;
        }
        proof {
            assert forall|k: int| 0 <= k < changed.len() implies no_lf(#[trigger] changed[k]) by {
                lemma_indent_line_ok(block[k], outdent);
            }
            lemma_encoded_strings(strings_view(new_lines@), changed);
            lemma_encoded_strings(strings_view(old_lines@), block);
        }
        let before_cursor = self.cursor;
        let before_selection = self.selection;
        assert forall|k: int| 0 <= k < deltas@.len() implies #[trigger] deltas@[k] as int == indent_line_spec(
            e.buffer.lines[start_line + k],
            outdent,
        ).1 by {
            assert(block[k] == e.buffer.lines[start_line + k]);
        }
        let shifted = Self::indent_shift(before_cursor, start_line, end_line, &deltas, outdent, Ghost(e.buffer));
        let shifted_selection = match before_selection {
            Some(selection) => Some(
                (
                    Self::indent_shift(selection.anchor, start_line, end_line, &deltas, outdent, Ghost(e.buffer)),
                    Self::indent_shift(selection.head, start_line, end_line, &deltas, outdent, Ghost(e.buffer)),
                ),
            ),
            None => None,
        };
        let count = self.buffer.line_count();
        assert(end_line < count);
        let replacement = super::undo::clone_strings(&new_lines);
        self.buffer.replace_lines(start_line, end_line + 1, replacement);
        self.cursor = self.buffer.clamp_position(shifted);
        self.selection = match shifted_selection {
            Some((anchor, head)) => Some(
                Selection::new(self.buffer.clamp_position(anchor), self.buffer.clamp_position(head)),
            ),
            None => None,
        };
        self.update_preferred();
        self.record_line_replace_group(start_line, old_lines, new_lines, before_cursor, before_selection);
    }
}


/// The abstract form of one replacement: a range and its new text.
pub open spec fn replacement_view(r: (Position, Position, &str)) -> (Position, Position, Seq<char>) {
    (r.0, r.1, r.2@)
}

/// The abstract form of a list of replacements.
pub open spec fn replacements_view(rs: Seq<(Position, Position, &str)>) -> Seq<(Position, Position, Seq<char>)> {
    rs.map_values(|r: (Position, Position, &str)| replacement_view(r))
}

/// Replacements ordered by `(start, end)`.
pub open spec fn key_le(a: (Position, Position, Seq<char>), b: (Position, Position, Seq<char>)) -> bool {
    pos_lt(a.0, b.0) || (a.0 == b.0 && pos_le(a.1, b.1))
}

/// `x` placed into `sorted` after every entry whose key is not above its own.
pub open spec fn insert_sorted(
    sorted: Seq<(Position, Position, Seq<char>)>,
    x: (Position, Position, Seq<char>),
) -> Seq<(Position, Position, Seq<char>)>
    decreases sorted.len(),
{
    if sorted.len() == 0 {
        seq![x]
    } else if key_le(sorted.last(), x) {
        sorted.push(x)
    } else {
        insert_sorted(sorted.drop_last(), x).push(sorted.last())
    }
}

/// The stable sort of `rs` by `(start, end)`.
pub open spec fn sort_spec(rs: Seq<(Position, Position, Seq<char>)>) -> Seq<(Position, Position, Seq<char>)>
    decreases rs.len(),
{
    if rs.len() == 0 {
        rs
    } else {
        insert_sorted(sort_spec(rs.drop_last()), rs.last())
    }
}

/// The buffer and cursor after applying `ops` from the last to the first:
/// each clamps its range, deletes it and inserts its text at the start.
pub open spec fn replay_spec(v: BufferView, ops: Seq<(Position, Position, Seq<char>)>, cursor: Position) -> (
    BufferView,
    Position,
)
    decreases ops.len(),
{
    if ops.len() == 0 {
        (v, cursor)
    } else {
        let op = ops.last();
        let s = clamp(v, op.0);
        let e = clamp(v, op.1);
        let v1 = delete_spec(v, s, e).0;
        let (v2, c) = insert_spec(v1, s, encode_utf8(op.2));
        replay_spec(v2, ops.drop_last(), c)
    }
}

/// The editor after `replace_ranges`: nothing happens for no replacements or
/// when the text ends up unchanged; otherwise the replacements are applied
/// back to front in `(start, end)` order, the cursor lands after the text put
/// in first in the buffer, the selection is cleared, and the whole change is
/// one group that swaps all lines.
pub open spec fn replace_ranges_spec(e: EditorState, reps: Seq<(Position, Position, Seq<char>)>) -> EditorState {
    let (v2, after) = replay_spec(e.buffer, sort_spec(reps), e.cursor);
    if reps.len() == 0 || v2.lines == e.buffer.lines {
        e
    } else {
        let c = clamp(v2, after);
        EditorState {
            buffer: v2,
            cursor: c,
            preferred_grapheme: c.grapheme,
            selection: None,
            undo: record_spec(
                e.undo,
                line_group_spec(
                    0,
                    decoded(e.buffer.lines),
                    decoded(v2.lines),
                    e.cursor,
                    e.selection,
                    c,
                    None,
                ),
            ),
        }
    }
}

proof fn lemma_insert_sorted_step(
    s: Seq<(Position, Position, Seq<char>)>,
    x: (Position, Position, Seq<char>),
    j: int,
)
    requires
        0 < j <= s.len(),
        !key_le(s[j - 1], x),
    ensures
        insert_sorted(s.take(j), x) + s.skip(j) == insert_sorted(s.take(j - 1), x) + s.skip(j - 1),
{
    assert(s.take(j).drop_last() =~= s.take(j - 1));
    assert(s.take(j).last() == s[j - 1]);
    assert(insert_sorted(s.take(j), x) == insert_sorted(s.take(j - 1), x).push(s[j - 1]));
    assert(insert_sorted(s.take(j - 1), x).push(s[j - 1]) + s.skip(j) =~= insert_sorted(s.take(j - 1), x)
        + s.skip(j - 1));
}

/// Executable `key_le`.
fn key_le_exec(a: &(Position, Position, &str), b: &(Position, Position, &str)) -> (res: bool)
    ensures
        res == key_le(replacement_view(*a), replacement_view(*b)),
{
    super::position::precedes(a.0, b.0) || (a.0 == b.0 && super::position::precedes_or_equals(a.1, b.1))
}

/// Puts `x` into `out` as `insert_sorted` does.
fn insert_replacement<'a>(out: &mut Vec<(Position, Position, &'a str)>, x: (Position, Position, &'a str))
    ensures
        replacements_view(final(out)@) == insert_sorted(replacements_view(old(out)@), replacement_view(x)),
{
    let ghost s = replacements_view(out@);
    let ghost xv = replacement_view(x);
    let mut j: usize = out.len();
    assert(s.take(j as int) =~= s);
    assert(s.skip(j as int) =~= Seq::<(Position, Position, Seq<char>)>::empty());
    while j > 0 && !key_le_exec(&out[j - 1], &x)
        invariant
            j <= out@.len(),
            out@ == old(out)@,
            s == replacements_view(out@),
            xv == replacement_view(x),
            insert_sorted(s, xv) == insert_sorted(s.take(j as int), xv) + s.skip(j as int),
        decreases j,
    {
        proof {
            lemma_insert_sorted_step(s, xv, j as int);
        }
        j = j - 1;
    }
    proof {
        if j == 0 {
            assert(s.take(0) =~= Seq::<(Position, Position, Seq<char>)>::empty());
        } else {
            assert(s.take(j as int).last() == s[j - 1]);
        }
    }
    out.insert(j, x);
    assert(replacements_view(out@) =~= insert_sorted(s, xv));
}

/// The replacements in stable `(start, end)` order.
fn sort_replacements<'a>(reps: &[(Position, Position, &'a str)]) -> (res: Vec<(Position, Position, &'a str)>)
    ensures
        replacements_view(res@) == sort_spec(replacements_view(reps@)),
{
    let mut out: Vec<(Position, Position, &'a str)> = Vec::new();
    let mut i: usize = 0;
    while i < reps.len()
        invariant
            i <= reps@.len(),
            replacements_view(out@) == sort_spec(replacements_view(reps@).take(i as int)),
        decreases reps@.len() - i,
    {
        let ghost rv = replacements_view(reps@);
        assert(rv.take(i + 1).drop_last() =~= rv.take(i as int));
        assert(rv.take(i + 1).last() == replacement_view(reps@[i as int]));
        insert_replacement(&mut out, reps[i]);
        i = i + 1;
    }
    assert(replacements_view(reps@).take(reps@.len() as int) =~= replacements_view(reps@));
    out
}

impl EditorCore {
    /// Replaces one or more ranges as a single undoable edit group, applying
    /// them from the end of the buffer to the front.
    #[verifier::rlimit(30)]
    pub fn replace_ranges(&mut self, replacements: &[(Position, Position, &str)])
        requires
            old(self)@.wf(),
        ensures
            final(self)@ == replace_ranges_spec(old(self)@, replacements_view(replacements@)),
            final(self)@.wf(),
            final(self)@ != old(self)@ ==> undone_and_redone(old(self)@, final(self)@),
    {
        if replacements.len() == 0 {
            return ;
        }
        let ghost e = self@;
        let cursor_before = self.cursor;
        let selection_before = self.selection;
        let old_lines = self.buffer.lines_snapshot();
        let old_count = old_lines.len();
        let ordered = sort_replacements(replacements);
        let ghost ops = replacements_view(ordered@);
        let ghost target = replay_spec(e.buffer, ops, e.cursor);
        let mut cursor_after = cursor_before;
        let mut i: usize = ordered.len();
        assert(ops.take(i as int) =~= ops);
        while i > 0
            invariant
                i <= ordered@.len(),
                ops == replacements_view(ordered@),
                self.buffer@.wf(),
                self.buffer@.line_ending == e.buffer.line_ending,
                self.buffer@.trailing_newline == e.buffer.trailing_newline,
                replay_spec(self.buffer@, ops.take(i as int), cursor_after) == target,
                self.cursor == e.cursor,
                self.selection == e.selection,
                self.preferred_grapheme == e.preferred_grapheme,
                self.undo@ == e.undo,
            decreases i,
        {
            let (start, end, text) = ordered[i - 1];
            let ghost v0 = self.buffer@;
            assert(ops.take(i as int).drop_last() =~= ops.take(i - 1));
            assert(ops.take(i as int).last() == (start, end, text@));
            let start = self.buffer.clamp_position(start);
            let end = self.buffer.clamp_position(end);
            self.buffer.delete_range(start, end);
            cursor_after = self.buffer.insert(start, text);
            i = i - 1;
        }
        assert(ops.take(0) =~= Seq::<(Position, Position, Seq<char>)>::empty());
        let new_lines = self.buffer.lines_snapshot();
        let ghost v2 = self.buffer@;
        proof {
            lemma_decoded_storable(e.buffer.lines);
            lemma_decoded_storable(v2.lines);
        }
        if strings_equal(&old_lines, &new_lines) {
            assert(v2.lines =~= e.buffer.lines);
            return ;
        }
        self.cursor = self.buffer.clamp_position(cursor_after);
        self.selection = None;
        self.update_preferred();
        let ghost ov = strings_view(old_lines@);
        let ghost nv = strings_view(new_lines@);
        self.record_line_replace_group(0, old_lines, new_lines, cursor_before, selection_before);
        let new_count = self.buffer.line_count();
        proof {
            assert(e.buffer.lines.len() == old_count);
            assert(e.buffer.lines.subrange(0, e.buffer.lines.len() as int) =~= e.buffer.lines);
            assert(e.buffer.lines.take(0) + encoded(nv) + e.buffer.lines.skip(e.buffer.lines.len() as int) =~= v2.lines);
            lemma_line_group_undo(e, self@, 0, ov, nv);
        }
    }
}

} // verus!
