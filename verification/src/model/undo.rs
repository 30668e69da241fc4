//! Linear undo/redo stack based on inverse edit operations.

use vstd::prelude::*;
use vstd::utf8::encode_utf8;

use super::buffer::{
    decoded, delete_spec, encoded, insert_spec, lemma_decoded_storable, line_span,
    nonempty_lines, storable, strings_view, with_lines, BufferView, TextBuffer,
};
use super::position::{pos_le, precedes_or_equals, Position};
use super::selection::Selection;

verus! {

broadcast use {vstd::seq::group_seq_axioms, vstd::seq_lib::group_seq_properties};

/// A primitive buffer mutation used for replaying undo and redo.
#[allow(inconsistent_fields)]
#[derive(Debug, Clone, PartialEq, Eq)]
pub enum EditOp {
    /// Insert `text` at `pos`.
    Insert { pos: Position, text: String },
    /// Delete the half-open range `start..end`.
    Delete { start: Position, end: Position },
    /// Replace the `old.len()` logical lines starting at `start` by `new`.
    ReplaceLines { start: usize, old: Vec<String>, new: Vec<String> },
}

/// The merge class for adjacent edits.
#[derive(Debug, Clone, Copy, PartialEq, Eq, Structural)]
pub enum EditKind {
    Insert,
    Backspace,
    Other,
}

/// Metadata used to decide whether adjacent groups can be merged.
#[derive(Debug, Clone, Copy, PartialEq, Eq, Structural)]
pub struct MergeInfo {
    pub kind: EditKind,
    pub start: Position,
    pub end: Position,
    pub text_has_newline: bool,
}

/// One undoable group, possibly containing multiple primitive operations.
#[derive(Debug, Clone, PartialEq, Eq)]
pub struct EditGroup {
    pub forward: Vec<EditOp>,
    pub inverse: Vec<EditOp>,
    pub cursor_before: Position,
    pub cursor_after: Position,
    pub selection_before: Option<Selection>,
    pub selection_after: Option<Selection>,
    pub merge: MergeInfo,
}

/// The abstract content of an [`EditOp`].
#[allow(inconsistent_fields)]
pub enum OpView {
    Insert { pos: Position, text: Seq<char> },
    Delete { start: Position, end: Position },
    ReplaceLines { start: usize, old: Seq<Seq<char>>, new: Seq<Seq<char>> },
}

impl View for EditOp {
    type V = OpView;

    open spec fn view(&self) -> OpView {
        match self {
            EditOp::Insert { pos, text } => OpView::Insert { pos: *pos, text: text@ },
            EditOp::Delete { start, end } => OpView::Delete { start: *start, end: *end },
            EditOp::ReplaceLines { start, old, new } => OpView::ReplaceLines {
                start: *start,
                old: strings_view(old@),
                new: strings_view(new@),
            },
        }
    }
}

/// The abstract content of a vector of operations.
pub open spec fn ops_view(ops: Seq<EditOp>) -> Seq<OpView> {
    ops.map_values(|op: EditOp| op@)
}

/// The abstract content of an [`EditGroup`].
pub struct GroupView {
    pub forward: Seq<OpView>,
    pub inverse: Seq<OpView>,
    pub cursor_before: Position,
    pub cursor_after: Position,
    pub selection_before: Option<Selection>,
    pub selection_after: Option<Selection>,
    pub merge: MergeInfo,
}

impl View for EditGroup {
    type V = GroupView;

    open spec fn view(&self) -> GroupView {
        GroupView {
            forward: ops_view(self.forward@),
            inverse: ops_view(self.inverse@),
            cursor_before: self.cursor_before,
            cursor_after: self.cursor_after,
            selection_before: self.selection_before,
            selection_after: self.selection_after,
            merge: self.merge,
        }
    }
}

/// The abstract content of a vector of groups.
pub open spec fn groups_view(groups: Seq<EditGroup>) -> Seq<GroupView> {
    groups.map_values(|g: EditGroup| g@)
}

/// An operation that can be applied to any well-formed buffer.
pub open spec fn op_ok(op: OpView) -> bool {
    match op {
        OpView::ReplaceLines { new, .. } => storable(new),
        _ => true,
    }
}

/// Every operation of a group can be applied.
pub open spec fn group_ok(g: GroupView) -> bool {
    &&& forall|i: int| 0 <= i < g.forward.len() ==> op_ok(#[trigger] g.forward[i])
    &&& forall|i: int| 0 <= i < g.inverse.len() ==> op_ok(#[trigger] g.inverse[i])
}

/// The end line of a line replacement, saturating at `usize::MAX`.
pub open spec fn span_end(start: usize, count: nat) -> usize {
    if start + count <= usize::MAX {
        (start + count) as usize
    } else {
        usize::MAX
    }
}

/// The buffer after one operation.
#[verifier::opaque]
pub open spec fn apply_op(v: BufferView, op: OpView) -> BufferView {
    match op {
        OpView::Insert { pos, text } => insert_spec(v, pos, encode_utf8(text)).0,
        OpView::Delete { start, end } => delete_spec(v, start, end).0,
        OpView::ReplaceLines { start, old, new } => replace_op(v, start, old.len(), new),
    }
}

/// The buffer after the `count` lines from `start` are replaced by `new`.
pub open spec fn replace_op(v: BufferView, start: usize, count: nat, new: Seq<Seq<char>>) -> BufferView {
    let (s, e) = line_span(v, start, span_end(start, count));
    with_lines(v, nonempty_lines(v.lines.take(s) + encoded(new) + v.lines.skip(e)))
}

/// A line replacement operation replaces the lines.
pub proof fn lemma_apply_replace(v: BufferView, start: usize, old: Seq<Seq<char>>, new: Seq<Seq<char>>)
    ensures
        apply_op(v, OpView::ReplaceLines { start, old, new }) == replace_op(v, start, old.len(), new),
{
    reveal(apply_op);
}

/// An insertion operation inserts the text's bytes.
pub proof fn lemma_apply_insert(v: BufferView, pos: Position, text: Seq<char>)
    ensures
        apply_op(v, OpView::Insert { pos, text }) == insert_spec(v, pos, encode_utf8(text)).0,
{
    reveal(apply_op);
}

/// A deletion operation deletes the range.
pub proof fn lemma_apply_delete(v: BufferView, start: Position, end: Position)
    ensures
        apply_op(v, OpView::Delete { start, end }) == delete_spec(v, start, end).0,
{
    reveal(apply_op);
}

/// The buffer after applying `ops` first to last.
pub open spec fn apply_forward(v: BufferView, ops: Seq<OpView>) -> BufferView
    decreases ops.len(),
{
    if ops.len() == 0 {
        v
    } else {
        apply_op(apply_forward(v, ops.drop_last()), ops.last())
    }
}

/// The buffer after applying `ops` last to first.
pub open spec fn apply_backward(v: BufferView, ops: Seq<OpView>) -> BufferView
    decreases ops.len(),
{
    if ops.len() == 0 {
        v
    } else {
        apply_backward(apply_op(v, ops.last()), ops.drop_last())
    }
}

impl EditGroup {
    /// Creates a new undoable group without selection state.
    pub fn new(
        forward: Vec<EditOp>,
        inverse: Vec<EditOp>,
        cursor_before: Position,
        cursor_after: Position,
        merge: MergeInfo,
    ) -> (res: Self)
        ensures
            res.forward == forward,
            res.inverse == inverse,
            res.cursor_before == cursor_before,
            res.cursor_after == cursor_after,
            res.selection_before.is_none(),
            res.selection_after.is_none(),
            res.merge == merge,
    {
        EditGroup {
            forward,
            inverse,
            cursor_before,
            cursor_after,
            selection_before: None,
            selection_after: None,
            merge,
        }
    }

    /// The group with the selections to restore on undo and redo.
    pub fn with_selection(self, before: Option<Selection>, after: Option<Selection>) -> (res: Self)
        ensures
            res == (EditGroup { selection_before: before, selection_after: after, ..self }),
    {
        EditGroup { selection_before: before, selection_after: after, ..self }
    }
}

/// Undo/redo history. Redo is linear and is cleared by any new edit.
#[derive(Debug, Clone, PartialEq, Eq)]
pub struct UndoStack {
    undo: Vec<EditGroup>,
    redo: Vec<EditGroup>,
    force_boundary: bool,
}

/// The abstract content of an [`UndoStack`].
pub struct UndoView {
    pub undo: Seq<GroupView>,
    pub redo: Seq<GroupView>,
    pub force_boundary: bool,
}

impl View for UndoStack {
    type V = UndoView;

    closed spec fn view(&self) -> UndoView {
        UndoView {
            undo: groups_view(self.undo@),
            redo: groups_view(self.redo@),
            force_boundary: self.force_boundary,
        }
    }
}

impl UndoView {
    /// Every recorded operation can be replayed.
    pub open spec fn wf(self) -> bool {
        &&& forall|i: int| 0 <= i < self.undo.len() ==> group_ok(#[trigger] self.undo[i])
        &&& forall|i: int| 0 <= i < self.redo.len() ==> group_ok(#[trigger] self.redo[i])
    }
}

/// Whether `next` continues `previous` as one undo step: consecutive typing
/// without line breaks, or consecutive backspaces.
pub open spec fn can_merge_spec(previous: MergeInfo, next: MergeInfo) -> bool {
    match (previous.kind, next.kind) {
        (EditKind::Insert, EditKind::Insert) => !previous.text_has_newline && !next.text_has_newline
            && previous.end == next.start,
        (EditKind::Backspace, EditKind::Backspace) => previous.start == next.end,
        _ => false,
    }
}

/// The earlier of two positions.
pub open spec fn pos_min(a: Position, b: Position) -> Position {
    if pos_le(a, b) {
        a
    } else {
        b
    }
}

/// The later of two positions.
pub open spec fn pos_max(a: Position, b: Position) -> Position {
    if pos_le(a, b) {
        b
    } else {
        a
    }
}

/// `previous` extended by `next`.
pub open spec fn merged_group(previous: GroupView, next: GroupView) -> GroupView {
    GroupView {
        forward: previous.forward + next.forward,
        inverse: previous.inverse + next.inverse,
        cursor_before: previous.cursor_before,
        cursor_after: next.cursor_after,
        selection_before: previous.selection_before,
        selection_after: next.selection_after,
        merge: MergeInfo {
            kind: previous.merge.kind,
            start: pos_min(previous.merge.start, next.merge.start),
            end: pos_max(previous.merge.end, next.merge.end),
            text_has_newline: previous.merge.text_has_newline || next.merge.text_has_newline,
        },
    }
}

/// The history after recording `g`.
pub open spec fn record_spec(u: UndoView, g: GroupView) -> UndoView {
    if !u.force_boundary && u.undo.len() > 0 && can_merge_spec(u.undo.last().merge, g.merge) {
        UndoView {
            undo: u.undo.drop_last().push(merged_group(u.undo.last(), g)),
            redo: Seq::empty(),
            force_boundary: u.force_boundary,
        }
    } else {
        UndoView { undo: u.undo.push(g), redo: Seq::empty(), force_boundary: false }
    }
}

fn pos_min_exec(a: Position, b: Position) -> (res: Position)
    ensures
        res == pos_min(a, b),
{
    if precedes_or_equals(a, b) {
        a
    } else {
        b
    }
}

fn pos_max_exec(a: Position, b: Position) -> (res: Position)
    ensures
        res == pos_max(a, b),
{
    if precedes_or_equals(a, b) {
        b
    } else {
        a
    }
}

fn can_merge(previous: &EditGroup, next: &EditGroup) -> (res: bool)
    ensures
        res == can_merge_spec(previous.merge, next.merge),
{
    match (previous.merge.kind, next.merge.kind) {
        (EditKind::Insert, EditKind::Insert) => {
            !previous.merge.text_has_newline && !next.merge.text_has_newline
                && previous.merge.end == next.merge.start
        },
        (EditKind::Backspace, EditKind::Backspace) => previous.merge.start == next.merge.end,
        _ => false,
    }
}

fn append_ops(dst: &mut Vec<EditOp>, src: Vec<EditOp>)
    ensures
        ops_view(final(dst)@) == ops_view(old(dst)@) + ops_view(src@),
{
    let mut src = src;
    let ghost s = src@;
    dst.append(&mut src);
    assert(ops_view(dst@) =~= ops_view(old(dst)@) + ops_view(s));
}

fn apply(buffer: &mut TextBuffer, op: &EditOp)
    requires
        old(buffer)@.wf(),
        op_ok(op@),
    ensures
        final(buffer)@.wf(),
        final(buffer)@ == apply_op(old(buffer)@, op@),
{
    reveal(apply_op);
    match op {
        EditOp::Insert { pos, text } => {
            buffer.insert(*pos, text.as_str());
        },
        EditOp::Delete { start, end } => {
            buffer.delete_range(*start, *end);
        },
        EditOp::ReplaceLines { start, old, new } => {
            let end = start.saturating_add(old.len());
            let replacement = clone_strings(new);
            buffer.replace_lines(*start, end, replacement);
        },
    }
}

/// Copies of strings with the same text.
pub fn clone_strings(v: &Vec<String>) -> (res: Vec<String>)
    ensures
        strings_view(res@) == strings_view(v@),
{
    let mut out: Vec<String> = Vec::new();
    let mut i: usize = 0;
    while i < v.len()
        invariant
            i <= v@.len(),
            strings_view(out@) == strings_view(v@).take(i as int),
        decreases v@.len() - i,
    {
        let s = v[i].clone();
        let ghost before = out@;
        out.push(s);
        assert(strings_view(out@) =~= strings_view(before).push(s@));
        i = i + 1;
        assert(strings_view(v@).take(i as int) =~= strings_view(v@).take(i - 1).push(v@[i - 1]@));
    }
    assert(strings_view(v@).take(v@.len() as int) =~= strings_view(v@));
    out
}

impl UndoStack {
    /// An empty history.
    pub fn new() -> (res: Self)
        ensures
            res@.undo.len() == 0,
            res@.redo.len() == 0,
            !res@.force_boundary,
            res@.wf(),
    {
        let res = UndoStack { undo: Vec::new(), redo: Vec::new(), force_boundary: false };
        assert(res@.undo =~= Seq::<GroupView>::empty());
        assert(res@.redo =~= Seq::<GroupView>::empty());
        res
    }

    /// Records an edit group and merges it with the previous group when allowed.
    pub fn record(&mut self, group: EditGroup)
        requires
            old(self)@.wf(),
            group_ok(group@),
        ensures
            final(self)@ == record_spec(old(self)@, group@),
            final(self)@.wf(),
            ({
                let last = old(self)@.undo.last().merge;
                let next = group@.merge;
                old(self)@.undo.len() == 0 || old(self)@.force_boundary || last.kind != next.kind
                    || next.kind == EditKind::Other
                    || (next.kind == EditKind::Insert && last.end != next.start)
                    || (next.kind == EditKind::Insert && (last.text_has_newline || next.text_has_newline))
                    || (next.kind == EditKind::Backspace && last.start != next.end)
                    ==> final(self)@.undo == old(self)@.undo.push(group@)
            }),
    {
        let ghost u = self@;
        let ghost g = group@;
        proof {
            law_noncontiguous_edits_start_a_new_step(u, g);
        }
        self.redo.clear();
        let n = self.undo.len();
        if !self.force_boundary && n > 0 && can_merge(&self.undo[n - 1], &group) {
            let mut previous = self.undo.pop().unwrap();
            assert(previous@ == u.undo.last());
            let EditGroup { forward, inverse, cursor_after, selection_after, merge, .. } = group;
            append_ops(&mut previous.forward, forward);
            append_ops(&mut previous.inverse, inverse);
            previous.cursor_after = cursor_after;
            previous.selection_after = selection_after;
            previous.merge.start = pos_min_exec(previous.merge.start, merge.start);
            previous.merge.end = pos_max_exec(previous.merge.end, merge.end);
            previous.merge.text_has_newline = previous.merge.text_has_newline
                || merge.text_has_newline;
            let ghost before = self.undo@;
            self.undo.push(previous);
            assert(groups_view(self.undo@) =~= groups_view(before).push(previous@));
            assert(previous@.forward == u.undo.last().forward + g.forward);
            assert(groups_view(self.undo@) =~= u.undo.drop_last().push(
                merged_group(u.undo.last(), g),
            ));
            assert(groups_view(self.redo@) =~= Seq::<GroupView>::empty());
            proof {
                let m = merged_group(u.undo.last(), g);
                assert(group_ok(u.undo.last()));
                assert(group_ok(m));
            }
            return;
        }
        let ghost before = self.undo@;
        self.undo.push(group);
        assert(groups_view(self.undo@) =~= groups_view(before).push(g));
        assert(groups_view(self.redo@) =~= Seq::<GroupView>::empty());
        self.force_boundary = false;
    }

    /// Forces the next recorded edit to start a new group.
    pub fn commit_group(&mut self)
        ensures
            final(self)@.undo == old(self)@.undo,
            final(self)@.redo == old(self)@.redo,
            final(self)@.force_boundary,
    {
        self.force_boundary = true;
    }

    /// Applies the latest inverse group and returns the restored cursor and
    /// selection.
    pub fn undo(&mut self, buffer: &mut TextBuffer) -> (res: Option<(Position, Option<Selection>)>)
        requires
            old(self)@.wf(),
            old(buffer)@.wf(),
        ensures
            final(self)@.wf(),
            final(buffer)@.wf(),
            old(self)@.undo.len() == 0 ==> res is None && final(self)@ == old(self)@
                && final(buffer)@ == old(buffer)@,
            old(self)@.undo.len() > 0 ==> {
                let g = old(self)@.undo.last();
                &&& res == Some((g.cursor_before, g.selection_before))
                &&& final(buffer)@ == apply_backward(old(buffer)@, g.inverse)
                &&& final(self)@.undo == old(self)@.undo.drop_last()
                &&& final(self)@.redo == old(self)@.redo.push(g)
                &&& final(self)@.force_boundary
            },
    {
        let ghost u = self@;
        let group = match self.undo.pop() {
            Some(group) => group,
            None => return None,
        };
        assert(group@ == u.undo.last());
        assert(groups_view(self.undo@) =~= u.undo.drop_last());
        assert(group_ok(group@));
        let mut i = group.inverse.len();
        let ghost v0 = buffer@;
        let ghost inv = group@.inverse;
        while i > 0
            invariant
                inv == group@.inverse,
                group_ok(group@),
                i <= inv.len(),
                buffer@.wf(),
                apply_backward(v0, inv) == apply_backward(buffer@, inv.take(i as int)),
            decreases i,
        {
            i = i - 1;
            assert(inv.take(i + 1).last() == inv[i as int]);
            assert(inv.take(i + 1).drop_last() =~= inv.take(i as int));
            assert(op_ok(inv[i as int]));
            apply(buffer, &group.inverse[i]);
        }
        assert(inv.take(inv.len() as int) =~= inv);
        let cursor = group.cursor_before;
        let selection = group.selection_before;
        let ghost before = self.redo@;
        let ghost gv = group@;
        self.redo.push(group);
        assert(groups_view(self.redo@) =~= groups_view(before).push(gv));
        self.force_boundary = true;
        assert(forall|k: int| 0 <= k < self@.undo.len() ==> self@.undo[k] == u.undo[k]);
        assert(forall|k: int| 0 <= k < u.redo.len() ==> self@.redo[k] == u.redo[k]);
        assert(self@.redo[u.redo.len() as int] == gv);
        Some((cursor, selection))
    }

    /// Re-applies the latest undone group and returns the redone cursor and
    /// selection.
    pub fn redo(&mut self, buffer: &mut TextBuffer) -> (res: Option<(Position, Option<Selection>)>)
        requires
            old(self)@.wf(),
            old(buffer)@.wf(),
        ensures
            final(self)@.wf(),
            final(buffer)@.wf(),
            old(self)@.redo.len() == 0 ==> res is None && final(self)@ == old(self)@
                && final(buffer)@ == old(buffer)@,
            old(self)@.redo.len() > 0 ==> {
                let g = old(self)@.redo.last();
                &&& res == Some((g.cursor_after, g.selection_after))
                &&& final(buffer)@ == apply_forward(old(buffer)@, g.forward)
                &&& final(self)@.redo == old(self)@.redo.drop_last()
                &&& final(self)@.undo == old(self)@.undo.push(g)
                &&& final(self)@.force_boundary
            },
    {
        let ghost u = self@;
        let group = match self.redo.pop() {
            Some(group) => group,
            None => return None,
        };
        assert(group@ == u.redo.last());
        assert(groups_view(self.redo@) =~= u.redo.drop_last());
        assert(group_ok(group@));
        let mut i: usize = 0;
        let ghost v0 = buffer@;
        let ghost fwd = group@.forward;
        while i < group.forward.len()
            invariant
                fwd == group@.forward,
                group_ok(group@),
                i <= fwd.len(),
                buffer@.wf(),
                buffer@ == apply_forward(v0, fwd.take(i as int)),
            decreases fwd.len() - i,
        {
            assert(fwd.take(i + 1).last() == fwd[i as int]);
            assert(fwd.take(i + 1).drop_last() =~= fwd.take(i as int));
            assert(op_ok(fwd[i as int]));
            apply(buffer, &group.forward[i]);
            i = i + 1;
        }
        assert(fwd.take(fwd.len() as int) =~= fwd);
        let cursor = group.cursor_after;
        let selection = group.selection_after;
        let ghost before = self.undo@;
        let ghost gv = group@;
        self.undo.push(group);
        assert(groups_view(self.undo@) =~= groups_view(before).push(gv));
        self.force_boundary = true;
        assert(forall|k: int| 0 <= k < self@.redo.len() ==> self@.redo[k] == u.redo[k]);
        assert(forall|k: int| 0 <= k < u.undo.len() ==> self@.undo[k] == u.undo[k]);
        assert(self@.undo[u.undo.len() as int] == gv);
        Some((cursor, selection))
    }
}

impl Default for UndoStack {
    /// An empty history.
    fn default() -> (res: Self)
        ensures
            res@.undo.len() == 0,
            res@.redo.len() == 0,
            !res@.force_boundary,
    {
        UndoStack::new()
    }
}

/// Replacing a block of lines by `new`, then the new block by the lines that
/// were there, gives back the buffer.
pub proof fn lemma_replace_lines_inverse(
    v: BufferView,
    start: usize,
    old: Seq<Seq<char>>,
    new: Seq<Seq<char>>,
)
    requires
        v.wf(),
        v.lines.len() <= usize::MAX,
        start + old.len() <= v.lines.len(),
        old == decoded(v.lines.subrange(start as int, start + old.len())),
        storable(new),
        new.len() > 0 || v.lines.len() > old.len(),
        start + new.len() <= usize::MAX,
    ensures
        apply_op(v, OpView::ReplaceLines { start, old, new }).lines == v.lines.take(start as int)
            + encoded(new) + v.lines.skip(start + old.len()),
        apply_op(
            apply_op(v, OpView::ReplaceLines { start, old, new }),
            OpView::ReplaceLines { start, old: new, new: old },
        ) == v,
{
    lemma_apply_replace(v, start, old, new);
    lemma_apply_replace(replace_op(v, start, old.len(), new), start, new, old);
    let s = start as int;
    let block = v.lines.subrange(s, s + old.len());
    assert forall|i: int| 0 <= i < block.len() implies super::buffer::line_ok(#[trigger] block[i]) by {
        assert(block[i] == v.lines[s + i]);
    }
    lemma_decoded_storable(block);
    lemma_replace_op_inverse(v, start, old.len(), encoded(old), encoded(new), new, old);
}

proof fn lemma_replace_op_inverse(
    v: BufferView,
    start: usize,
    count: nat,
    block: Seq<Seq<u8>>,
    en: Seq<Seq<u8>>,
    new: Seq<Seq<char>>,
    old: Seq<Seq<char>>,
)
    requires
        v.lines.len() >= 1,
        v.lines.len() <= usize::MAX,
        start + count <= v.lines.len(),
        block == v.lines.subrange(start as int, start + count),
        encoded(old) == block,
        en == encoded(new),
        new.len() > 0 || v.lines.len() > count,
        start + new.len() <= usize::MAX,
    ensures
        replace_op(v, start, count, new).lines == v.lines.take(start as int) + en + v.lines.skip(start + count),
        replace_op(replace_op(v, start, count, new), start, new.len(), old) == v,
{
    let s = start as int;
    assert(en.len() == new.len());
    let l1 = v.lines.take(s) + en + v.lines.skip(s + count);
    assert(l1.len() == v.lines.len() - count + new.len());
    assert(line_span(v, start, span_end(start, count)) == (s, s + count));
    assert(nonempty_lines(l1) == l1);
    let v1 = replace_op(v, start, count, new);
    assert(v1.lines == l1);
    assert(line_span(v1, start, span_end(start, new.len())) == (s, s + new.len()));
    assert(l1.take(s) =~= v.lines.take(s));
    assert(l1.skip(s + new.len()) =~= v.lines.skip(s + count));
    let l2 = v.lines.take(s) + block + v.lines.skip(s + count);
    assert(l2 =~= v.lines);
    let v2 = replace_op(v1, start, new.len(), old);
    assert(v2.lines == l2);
}

/// Redo is linear: recording any edit empties the redo list.
pub proof fn law_record_clears_redo(u: UndoView, g: GroupView)
    ensures
        record_spec(u, g).redo.len() == 0,
{
}

/// Consecutive typing without line breaks, continuing where the last typed
/// text ended, joins the last undo step instead of starting a new one (unless
/// a boundary was forced).
pub proof fn law_typing_merges(u: UndoView, g: GroupView)
    requires
        !u.force_boundary,
        u.undo.len() > 0,
        u.undo.last().merge.kind == EditKind::Insert,
        g.merge.kind == EditKind::Insert,
        !u.undo.last().merge.text_has_newline,
        !g.merge.text_has_newline,
        u.undo.last().merge.end == g.merge.start,
    ensures
        record_spec(u, g).undo.len() == u.undo.len(),
        record_spec(u, g).undo.last().forward == u.undo.last().forward + g.forward,
        record_spec(u, g).undo.last().inverse == u.undo.last().inverse + g.inverse,
        record_spec(u, g).undo.last().cursor_before == u.undo.last().cursor_before,
{
}

/// Contiguous typing (no line breaks, starting where the last typing ended)
/// and contiguous backspacing (ending where the last backspacing started)
/// join the last undo step: the history keeps its length and earlier steps,
/// and the last step runs the old edits and then the new ones, undoes them in
/// the reverse order, starts where the old step started and ends where the
/// new edit ended; the range it covers grows to take in the new edit.
pub proof fn law_contiguous_edits_join_the_last_step(u: UndoView, g: GroupView)
    requires
        !u.force_boundary,
        u.undo.len() > 0,
        ({
            let last = u.undo.last().merge;
            ||| (last.kind == EditKind::Insert && g.merge.kind == EditKind::Insert && !last.text_has_newline
                && !g.merge.text_has_newline && last.end == g.merge.start)
            ||| (last.kind == EditKind::Backspace && g.merge.kind == EditKind::Backspace
                && last.start == g.merge.end)
        }),
    ensures
        ({
            let r = record_spec(u, g);
            let prev = u.undo.last();
            let joined = r.undo.last();
            &&& r.undo.len() == u.undo.len()
            &&& r.undo.drop_last() == u.undo.drop_last()
            &&& r.redo.len() == 0
            &&& joined.forward == prev.forward + g.forward
            &&& joined.inverse == prev.inverse + g.inverse
            &&& joined.cursor_before == prev.cursor_before
            &&& joined.selection_before == prev.selection_before
            &&& joined.cursor_after == g.cursor_after
            &&& joined.selection_after == g.selection_after
            &&& joined.merge.kind == prev.merge.kind
            &&& joined.merge.start == (if pos_le(prev.merge.start, g.merge.start) {
                prev.merge.start
            } else {
                g.merge.start
            })
            &&& joined.merge.end == (if pos_le(prev.merge.end, g.merge.end) {
                g.merge.end
            } else {
                prev.merge.end
            })
        }),
{
}

/// Only contiguous typing or contiguous backspacing joins the last undo
/// step: a typed insertion that does not start where the last step's typing
/// ended, typing that holds or follows a line break, a backspace that does not end where the last backspacing started,
/// an edit of another kind, and any edit after a boundary each start a new
/// step (and clear the redo list).
pub proof fn law_noncontiguous_edits_start_a_new_step(u: UndoView, g: GroupView)
    ensures
        ({
            let new_step = record_spec(u, g).undo == u.undo.push(g) && record_spec(u, g).redo.len() == 0;
            let last = u.undo.last().merge;
            &&& (u.undo.len() == 0 || u.force_boundary) ==> new_step
            &&& (u.undo.len() > 0 && last.kind == EditKind::Insert && g.merge.kind == EditKind::Insert
                && last.end != g.merge.start) ==> new_step
            &&& (u.undo.len() > 0 && last.kind == EditKind::Backspace && g.merge.kind == EditKind::Backspace
                && last.start != g.merge.end) ==> new_step
            &&& (u.undo.len() > 0 && last.kind == EditKind::Insert && g.merge.kind == EditKind::Insert
                && (last.text_has_newline || g.merge.text_has_newline)) ==> new_step
            &&& (u.undo.len() > 0 && last.kind != g.merge.kind) ==> new_step
            &&& (g.merge.kind == EditKind::Other) ==> new_step
        }),
{
}

} // verus!
