//! Properties that span several editor commands: what one undo takes back
//! and what the following redo brings back.

use vstd::prelude::*;

use super::buffer::{
    lemma_clamp_idem, clamp, decoded, delete_spec, normalized, encoded, gbyte, gcount, insert_spec, lemma_decoded_storable,
    join, lemma_gbyte, lemma_lf_pieces_len, lf_pieces, line_ok, no_lf, strip_cr, line_starts, nonempty_lines, storable,
    with_lines, lemma_line_ok_split, BufferView,
};
use super::unicode::{lemma_sub_valid, tiling_starts};
use vstd::utf8::{decode_utf8, decode_utf8_encode_utf8, encode_utf8, valid_utf8};
use super::editor::{
    insert_sorted as insert_by_start, key_le, sort_spec,
    insert_break_spec,
    delete_recorded_spec, insert_text_spec, nonempty_range,
    indent_line_spec, indented_block, line_group_spec, line_indent_spec, move_lines_down_spec,
    move_lines_up_spec, redo_spec, selected_block_spec, undo_spec, EditorState, move_cursor_spec, Motion,
};
use super::position::{pos_le, pos_lt, Position};
use super::search::{
    clusters, find_matches_spec, line_matches, matches_upto, normalized_clusters, scan_matches,
};
use super::movement::{
    blank, byte_to_grapheme_spec, left_scan, right_scan, starts_below, word_left_spec, word_ranges_spec,
    word_right_spec,
};
use super::selection::Selection;
use super::undo::{
    apply_backward, apply_forward, apply_op, can_merge_spec, lemma_apply_delete, lemma_apply_insert, lemma_replace_lines_inverse,
    record_spec, OpView,
};
use super::undo::EditKind;

verus! {

broadcast use {vstd::seq::group_seq_axioms, vstd::seq_lib::group_seq_properties};

/// What a recorded line group promises: one undo gives back the buffer, the
/// cursor (clamped) and the selection from before, and leaves the earlier
/// history as it was; the redo after it gives back the buffer and selection
/// from after.
pub open spec fn undone_and_redone(e: EditorState, e1: EditorState) -> bool {
    let u = undo_spec(e1);
    let r = redo_spec(u);
    &&& u.buffer == e.buffer
    &&& u.cursor == clamp(e.buffer, e.cursor)
    &&& u.selection == e.selection
    &&& u.undo.undo == e.undo.undo
    &&& r.buffer == e1.buffer
    &&& r.cursor == clamp(e1.buffer, e1.cursor)
    &&& r.selection == e1.selection
}

/// A line group recorded over a block replacement is taken back by one undo
/// and brought back by the redo after it.
pub proof fn lemma_line_group_undo(
    e: EditorState,
    e1: EditorState,
    first: usize,
    old: Seq<Seq<char>>,
    new: Seq<Seq<char>>,
)
    requires
        e.wf(),
        e.buffer.lines.len() <= usize::MAX,
        first + old.len() <= e.buffer.lines.len(),
        old == decoded(e.buffer.lines.subrange(first as int, first + old.len())),
        storable(new),
        new.len() > 0,
        first + new.len() <= usize::MAX,
        e1.buffer == with_lines(
            e.buffer,
            nonempty_lines(e.buffer.lines.take(first as int) + encoded(new) + e.buffer.lines.skip(first + old.len())),
        ),
        e1.undo == record_spec(
            e.undo,
            line_group_spec(first, old, new, e.cursor, e.selection, e1.cursor, e1.selection),
        ),
    ensures
        undone_and_redone(e, e1),
{
    let g = line_group_spec(first, old, new, e.cursor, e.selection, e1.cursor, e1.selection);
    assert(!can_merge_spec(e.undo.undo.last().merge, g.merge));
    assert(e1.undo.undo == e.undo.undo.push(g));
    assert(e1.undo.undo.last() == g);
    assert(e1.undo.undo.drop_last() =~= e.undo.undo);
    let fwd = OpView::ReplaceLines { start: first, old, new };
    let inv = OpView::ReplaceLines { start: first, old: new, new: old };
    lemma_replace_lines_inverse(e.buffer, first, old, new);
    super::undo::lemma_apply_replace(e.buffer, first, old, new);
    let l1 = e.buffer.lines.take(first as int) + encoded(new) + e.buffer.lines.skip(first + old.len());
    assert(l1.len() > 0);
    assert(nonempty_lines(l1) == l1);
    assert(apply_op(e.buffer, fwd) == e1.buffer);
    assert(g.inverse.drop_last() =~= Seq::<OpView>::empty());
    assert(apply_backward(e1.buffer, g.inverse) == apply_backward(apply_op(e1.buffer, inv), Seq::<OpView>::empty()));
    let u = undo_spec(e1);
    assert(u.buffer == e.buffer);
    assert(u.undo.redo.last() == g);
    assert(g.forward.drop_last() =~= Seq::<OpView>::empty());
    assert(apply_forward(e.buffer, g.forward) == apply_op(apply_forward(e.buffer, Seq::<OpView>::empty()), fwd));
}

/// One undo takes back `move_lines_up` whenever it did anything, and the redo
/// after it moves the lines up again.
pub proof fn law_move_lines_up_undo(e: EditorState)
    requires
        e.wf(),
        e.buffer.lines.len() <= usize::MAX,
        move_lines_up_spec(e) != e,
    ensures
        undone_and_redone(e, move_lines_up_spec(e)),
{
    let (first, last) = selected_block_spec(e);
    let lines = decoded(e.buffer.lines);
    lemma_decoded_storable(e.buffer.lines);
    let old = lines.subrange(first - 1, last + 1);
    let new = lines.subrange(first, last + 1).push(lines[first - 1]);
    assert(old =~= decoded(e.buffer.lines.subrange(first - 1, first - 1 + old.len())));
    assert(storable(new)) by {
        assert forall|i: int| 0 <= i < new.len() implies super::buffer::no_lf(vstd::utf8::encode_utf8(#[trigger] new[i])) by {
            if i < new.len() - 1 {
                assert(new[i] == lines[first + i]);
            } else {
                assert(new[i] == lines[first - 1]);
            }
        }
    }
    lemma_line_group_undo(e, move_lines_up_spec(e), (first - 1) as usize, old, new);
}

/// One undo takes back `move_lines_down` whenever it did anything, and the
/// redo after it moves the lines down again.
pub proof fn law_move_lines_down_undo(e: EditorState)
    requires
        e.wf(),
        e.buffer.lines.len() <= usize::MAX,
        move_lines_down_spec(e) != e,
    ensures
        undone_and_redone(e, move_lines_down_spec(e)),
{
    let (first, last) = selected_block_spec(e);
    let lines = decoded(e.buffer.lines);
    lemma_decoded_storable(e.buffer.lines);
    let old = lines.subrange(first, last + 2);
    let new = seq![lines[last + 1]] + lines.subrange(first, last + 1);
    assert(old =~= decoded(e.buffer.lines.subrange(first, first + old.len())));
    assert(storable(new)) by {
        assert forall|i: int| 0 <= i < new.len() implies super::buffer::no_lf(vstd::utf8::encode_utf8(#[trigger] new[i])) by {
            if i == 0 {
                assert(new[i] == lines[last + 1]);
            } else {
                assert(new[i] == lines[first + i - 1]);
            }
        }
    }
    lemma_line_group_undo(e, move_lines_down_spec(e), first as usize, old, new);
}

/// One undo takes back `indent` or `outdent` whenever it changed a line, and
/// the redo after it applies it again.
pub proof fn law_indent_undo(e: EditorState, outdent: bool)
    requires
        e.wf(),
        e.buffer.lines.len() <= usize::MAX,
        line_indent_spec(e, outdent) != e,
    ensures
        undone_and_redone(e, line_indent_spec(e, outdent)),
{
    let (first, last) = selected_block_spec(e);
    let block = e.buffer.lines.subrange(first, last + 1);
    let changed = indented_block(e, outdent);
    assert forall|i: int| 0 <= i < changed.len() implies line_ok(#[trigger] changed[i]) by {
        assert(block[i] == e.buffer.lines[first + i]);
        super::editor::lemma_indent_line_ok(block[i], outdent);
    }
    lemma_decoded_storable(changed);
    let old = decoded(block);
    let new = decoded(changed);
    assert(encoded(new) == changed);
    lemma_line_group_undo(e, line_indent_spec(e, outdent), first as usize, old, new);
}

/// The grapheme starts named for `line` tile it, as `unicode-segmentation`
/// reports them for every string.
pub open spec fn segmented(line: Seq<u8>) -> bool {
    tiling_starts(line_starts(line), line)
}

/// Inserting `text` at `pos` leaves grapheme boundaries at both edges of the
/// inserted bytes, at the same cluster indices the insertion reports (the
/// later one not before the earlier): no cluster of the text merges with one
/// of the line around it.
pub open spec fn insert_joins_cleanly(v: BufferView, pos: Position, text: Seq<u8>) -> bool {
    let p = clamp(v, pos);
    let line = v.lines[p.line as int];
    let k = gbyte(line, p.grapheme as int);
    let (v1, after) = insert_spec(v, pos, text);
    let first = v1.lines[p.line as int];
    let last = v1.lines[after.line as int];
    &&& pos_le(p, after)
    &&& p.grapheme <= gcount(first)
    &&& after.grapheme <= gcount(last)
    &&& gbyte(first, p.grapheme as int) == k
    &&& gbyte(last, after.grapheme as int) + (line.len() - k) == last.len()
}

/// Deleting from the insertion point to the position an insertion reports
/// gives back the buffer, when the inserted text joins its line cleanly.
pub proof fn law_insert_then_delete(v: BufferView, pos: Position, text: Seq<char>)
    requires
        v.wf(),
        pos == clamp(v, pos),
        segmented(v.lines[pos.line as int]),
        insert_spec(v, pos, encode_utf8(text)).0.lines.len() <= usize::MAX,
        insert_joins_cleanly(v, pos, encode_utf8(text)),
    ensures
        delete_spec(insert_spec(v, pos, encode_utf8(text)).0, pos, insert_spec(v, pos, encode_utf8(text)).1).0 == v,
        clamp(insert_spec(v, pos, encode_utf8(text)).0, insert_spec(v, pos, encode_utf8(text)).1)
            == insert_spec(v, pos, encode_utf8(text)).1,
{
    let bytes = encode_utf8(text);
    let (v1, after) = insert_spec(v, pos, bytes);
    let li = pos.line as int;
    let line = v.lines[li];
    let k = gbyte(line, pos.grapheme as int);
    assert(line_ok(line));
    lemma_gbyte(line, pos.grapheme as int);
    let parts = lf_pieces(bytes);
    let n = parts.len();
    lemma_lf_pieces_len(bytes);
    if bytes.len() == 0 {
        assert(v1 == v);
        assert(after == pos);
    } else if n == 1 {
        let first = line.take(k) + parts[0] + line.skip(k);
        assert(v1.lines =~= v.lines.update(li, first));
        assert(v1.lines[li] == first);
        assert(after.line == pos.line);
        assert(clamp(v1, pos) == pos);
        assert(clamp(v1, after) == after);
        let be = gbyte(first, after.grapheme as int);
        assert(be == k + parts[0].len());
        if pos == after {
            assert(parts[0].len() == 0);
            assert(first =~= line);
            assert(v1.lines =~= v.lines);
        } else {
            assert(first.take(k) + first.skip(be) =~= line);
            assert(v1.lines.update(li, first.take(k) + first.skip(be)) =~= v.lines);
            assert(normalized(v1, pos, after) == (pos, after));
            assert(delete_spec(v1, pos, after).0.lines == v1.lines.update(li, first.take(k) + first.skip(be)));
        }
        assert(delete_spec(v1, pos, after).0.lines =~= v.lines);
    } else {
        let first = line.take(k) + parts[0];
        let last = parts[n - 1] + line.skip(k);
        let l1 = v.lines.take(li) + seq![first] + parts.subrange(1, n - 1) + seq![last] + v.lines.skip(li + 1);
        assert(v1.lines == l1);
        assert(l1.len() == v.lines.len() + n - 1);
        assert(after.line == li + n - 1);
        assert(l1[li] == first);
        assert(l1[li + n - 1] == last);
        assert(clamp(v1, pos) == pos);
        assert(clamp(v1, after) == after);
        assert(pos != after);
        let be = gbyte(last, after.grapheme as int);
        assert(be == parts[n - 1].len());
        assert(first.take(k) + last.skip(be) =~= line);
        assert(l1.take(li) =~= v.lines.take(li));
        assert(l1.skip(li + n) =~= v.lines.skip(li + 1));
        assert(v.lines.take(li).push(line) + v.lines.skip(li + 1) =~= v.lines);
        assert(normalized(v1, pos, after) == (pos, after));
        assert(delete_spec(v1, pos, after).0.lines == l1.take(li).push(first.take(k) + last.skip(be)) + l1.skip(li + n));
        assert(delete_spec(v1, pos, after).0.lines =~= v.lines);
    }
}

/// Typing text with nothing selected, as a new undo step, is taken back by one
/// undo (buffer and cursor as before) when the text joins its line cleanly;
/// the redo after it types it again.
pub proof fn law_insert_text_undo(e: EditorState, text: Seq<char>)
    requires
        e.wf(),
        nonempty_range(e.selection) is None,
        e.cursor == clamp(e.buffer, e.cursor),
        text.len() > 0,
        segmented(e.buffer.lines[e.cursor.line as int]),
        insert_spec(e.buffer, e.cursor, encode_utf8(text)).0.lines.len() <= usize::MAX,
        insert_joins_cleanly(e.buffer, e.cursor, encode_utf8(text)),
        insert_text_spec(e, text).undo.undo.len() == e.undo.undo.len() + 1,
    ensures
        undo_spec(insert_text_spec(e, text)).buffer == e.buffer,
        undo_spec(insert_text_spec(e, text)).cursor == e.cursor,
        undo_spec(insert_text_spec(e, text)).undo.undo == e.undo.undo,
        redo_spec(undo_spec(insert_text_spec(e, text))).buffer == insert_text_spec(e, text).buffer,
        redo_spec(undo_spec(insert_text_spec(e, text))).cursor == insert_text_spec(e, text).cursor,
{
    lemma_apply_delete(insert_spec(e.buffer, e.cursor, encode_utf8(text)).0, e.cursor, insert_spec(e.buffer, e.cursor, encode_utf8(text)).1);
    lemma_apply_insert(e.buffer, e.cursor, text);
    let bytes = encode_utf8(text);
    let (v1, after) = insert_spec(e.buffer, e.cursor, bytes);
    let e1 = insert_text_spec(e, text);
    law_insert_then_delete(e.buffer, e.cursor, text);
    assert(e1.buffer == v1 && e1.cursor == after);
    let g = e1.undo.undo.last();
    assert(e1.undo.undo == e.undo.undo.push(g));
    assert(e1.undo.undo.drop_last() =~= e.undo.undo);
    let del = OpView::Delete { start: e.cursor, end: after };
    let ins = OpView::Insert { pos: e.cursor, text };
    assert(g.inverse == seq![del]);
    assert(g.forward == seq![ins]);
    assert(g.inverse.drop_last() =~= Seq::<OpView>::empty());
    assert(apply_backward(v1, g.inverse) == apply_backward(apply_op(v1, del), Seq::<OpView>::empty()));
    assert(g.forward.drop_last() =~= Seq::<OpView>::empty());
    assert(apply_forward(e.buffer, g.forward) == apply_op(apply_forward(e.buffer, Seq::<OpView>::empty()), ins));
}

/// A piece of text whose last byte is a carriage return.
pub open spec fn ends_with_cr(b: Seq<u8>) -> bool {
    b.len() > 0 && b.last() == 13u8
}

/// The lines a deletion between ordered clamped positions on different lines
/// takes out, cut at the two ends: they are what `range_text` joins.
pub open spec fn removed_pieces(v: BufferView, s: Position, e: Position) -> Seq<Seq<u8>> {
    let ls = v.lines[s.line as int];
    let le = v.lines[e.line as int];
    seq![ls.skip(gbyte(ls, s.grapheme as int))] + v.lines.subrange(s.line + 1, e.line as int) + seq![
        le.take(gbyte(le, e.grapheme as int)),
    ]
}

/// Deleting `s..e` leaves a grapheme boundary where the two ends meet, at the
/// cluster index of `s`, and no removed line but the last ends with a carriage
/// return (which inserting the removed text again would drop).
pub open spec fn delete_joins_cleanly(v: BufferView, s: Position, e: Position) -> bool {
    let joined = delete_spec(v, s, e).0.lines[s.line as int];
    let pieces = removed_pieces(v, s, e);
    &&& s.grapheme <= gcount(joined)
    &&& gbyte(joined, s.grapheme as int) == gbyte(v.lines[s.line as int], s.grapheme as int)
    &&& s.line < e.line ==> forall|i: int| 0 <= i < pieces.len() - 1 ==> !ends_with_cr(#[trigger] pieces[i])
}

proof fn lemma_lf_pieces_append(t: Seq<u8>, b: Seq<u8>)
    requires
        no_lf(b),
    ensures
        lf_pieces(t + b) == lf_pieces(t).drop_last().push(lf_pieces(t).last() + b),
    decreases b.len(),
{
    lemma_lf_pieces_len(t);
    if b.len() == 0 {
        assert(t + b =~= t);
        assert(lf_pieces(t).last() + b =~= lf_pieces(t).last());
        assert(lf_pieces(t).drop_last().push(lf_pieces(t).last()) =~= lf_pieces(t));
    } else {
        let b1 = b.drop_last();
        lemma_lf_pieces_append(t, b1);
        assert((t + b).drop_last() =~= t + b1);
        assert((t + b).last() == b.last());
        assert(b.last() != 10u8);
        let p = lf_pieces(t);
        let prev = lf_pieces(t + b1);
        assert(prev.drop_last() =~= p.drop_last());
        assert(prev.last() == p.last() + b1);
        assert((p.last() + b1).push(b.last()) =~= p.last() + b);
        assert(lf_pieces(t + b) =~= p.drop_last().push(p.last() + b));
    }
}

/// Splitting lines joined by LF at their LFs gives them back, when none but
/// the last ends with a carriage return.
proof fn lemma_lf_pieces_join(q: Seq<Seq<u8>>)
    requires
        q.len() >= 1,
        forall|i: int| 0 <= i < q.len() ==> no_lf(#[trigger] q[i]),
        forall|i: int| 0 <= i < q.len() - 1 ==> !ends_with_cr(#[trigger] q[i]),
    ensures
        lf_pieces(join(q, seq![10u8])) == q,
    decreases q.len(),
{
    if q.len() == 1 {
        lemma_lf_pieces_append(Seq::<u8>::empty(), q[0]);
        assert(Seq::<u8>::empty() + q[0] =~= q[0]);
        assert(lf_pieces(q[0]) =~= q);
    } else {
        let q1 = q.drop_last();
        assert forall|i: int| 0 <= i < q1.len() - 1 implies !ends_with_cr(#[trigger] q1[i]) by {
            assert(q1[i] == q[i]);
        }
        lemma_lf_pieces_join(q1);
        let a = join(q1, seq![10u8]);
        let a1 = a + seq![10u8];
        assert(a1.drop_last() =~= a);
        assert(a1.last() == 10u8);
        assert(!ends_with_cr(q1.last()));
        assert(strip_cr(q1.last()) == q1.last());
        assert(lf_pieces(a1) =~= q1.push(Seq::<u8>::empty()));
        assert(no_lf(q.last()));
        lemma_lf_pieces_append(a1, q.last());
        assert(join(q, seq![10u8]) == a1 + q.last());
        assert(Seq::<u8>::empty() + q.last() =~= q.last());
        assert(lf_pieces(a1 + q.last()) =~= q);
    }
}

/// Inserting the removed text where a deletion started gives back the
/// buffer, when the deletion's ends join cleanly.
#[verifier::rlimit(100)]
#[verifier::spinoff_prover]
pub proof fn law_delete_then_insert(v: BufferView, s: Position, e: Position)
    requires
        v.wf(),
        s == clamp(v, s),
        e == clamp(v, e),
        pos_le(s, e),
        segmented(v.lines[s.line as int]),
        segmented(v.lines[e.line as int]),
        delete_joins_cleanly(v, s, e),
    ensures
        insert_spec(delete_spec(v, s, e).0, s, delete_spec(v, s, e).1).0 == v,
{
    let (v1, d) = delete_spec(v, s, e);
    let ls = v.lines[s.line as int];
    let le = v.lines[e.line as int];
    let bs = gbyte(ls, s.grapheme as int);
    let be = gbyte(le, e.grapheme as int);
    assert(line_ok(ls));
    assert(line_ok(le));
    lemma_gbyte(ls, s.grapheme as int);
    lemma_gbyte(le, e.grapheme as int);
    assert(normalized(v, s, e) == (s, e));
    if s == e {
        assert(d.len() == 0);
    } else if s.line == e.line {
        assert(bs <= be);
        let j = ls.take(bs) + ls.skip(be);
        assert(v1.lines == v.lines.update(s.line as int, j));
        assert(clamp(v1, s) == s);
        assert(d == ls.subrange(bs, be));
        assert(no_lf(d));
        lemma_lf_pieces_append(Seq::<u8>::empty(), d);
        assert(Seq::<u8>::empty() + d =~= d);
        assert(lf_pieces(d) =~= seq![d]);
        if d.len() == 0 {
            assert(j =~= ls);
            assert(v1.lines =~= v.lines);
        } else {
            assert(j.take(bs) + d + j.skip(bs) =~= ls);
            assert(v1.lines.update(s.line as int, j.take(bs) + d + j.skip(bs)) =~= v.lines);
        }
    } else {
        let li = s.line as int;
        let j = ls.take(bs) + le.skip(be);
        let l1 = v.lines.take(li).push(j) + v.lines.skip(e.line + 1);
        assert(v1.lines == l1);
        assert(l1[li] == j);
        assert(clamp(v1, s) == s);
        let q = removed_pieces(v, s, e);
        assert(d == join(q, seq![10u8]));
        assert forall|i: int| 0 <= i < q.len() implies no_lf(#[trigger] q[i]) by {
            if i == 0 {
            } else if i < q.len() - 1 {
                assert(q[i] == v.lines[li + i]);
                assert(line_ok(v.lines[li + i]));
            } else {
            }
        }
        lemma_lf_pieces_join(q);
        let n = q.len();
        assert(n >= 2);
        assert(d.len() > 0) by {
            if d.len() == 0 {
                assert(lf_pieces(d).len() == 1);
            }
        }
        assert(j.take(bs) + q[0] =~= ls);
        assert(q[n - 1] + j.skip(bs) =~= le);
        assert(q.subrange(1, n - 1) =~= v.lines.subrange(li + 1, e.line as int));
        assert(l1.take(li) =~= v.lines.take(li));
        assert(l1.skip(li + 1) =~= v.lines.skip(e.line + 1));
        assert(v.lines.take(li) + seq![ls] + v.lines.subrange(li + 1, e.line as int) + seq![le]
            + v.lines.skip(e.line + 1) =~= v.lines);
    }
}

/// Whether the removed text has as many clusters as the graphemes it
/// spanned: on one line, the clusters between its two ends; across lines,
/// the clusters before its end on the last line.
pub open spec fn removed_clusters_kept(v: BufferView, s: Position, e: Position) -> bool {
    let ls = v.lines[s.line as int];
    let le = v.lines[e.line as int];
    if s.line == e.line {
        gcount(ls.subrange(gbyte(ls, s.grapheme as int), gbyte(le, e.grapheme as int))) == e.grapheme - s.grapheme
    } else {
        gcount(le.take(gbyte(le, e.grapheme as int))) == e.grapheme
    }
}

/// Inserting the removed text where a deletion started leaves the cursor
/// where the deletion ended, when the deletion's ends join cleanly and the
/// removed text keeps its clusters.
#[verifier::rlimit(100)]
#[verifier::spinoff_prover]
pub proof fn law_delete_then_insert_cursor(v: BufferView, s: Position, e: Position)
    requires
        v.wf(),
        s == clamp(v, s),
        e == clamp(v, e),
        pos_le(s, e),
        segmented(v.lines[s.line as int]),
        segmented(v.lines[e.line as int]),
        delete_joins_cleanly(v, s, e),
        removed_clusters_kept(v, s, e),
    ensures
        insert_spec(delete_spec(v, s, e).0, s, delete_spec(v, s, e).1).1 == e,
{
    let (v1, d) = delete_spec(v, s, e);
    let ls = v.lines[s.line as int];
    let le = v.lines[e.line as int];
    let bs = gbyte(ls, s.grapheme as int);
    let be = gbyte(le, e.grapheme as int);
    assert(line_ok(ls));
    assert(line_ok(le));
    lemma_gbyte(ls, s.grapheme as int);
    lemma_gbyte(le, e.grapheme as int);
    assert(normalized(v, s, e) == (s, e));
    if s == e {
        assert(d.len() == 0);
    } else if s.line == e.line {
        assert(s.grapheme < e.grapheme);
        assert(bs < be) by {
            let st = line_starts(ls);
            assert(s.grapheme < gcount(ls));
            if e.grapheme < gcount(ls) {
                assert(st[s.grapheme as int] < st[e.grapheme as int]);
            }
        }
        let j = ls.take(bs) + ls.skip(be);
        assert(v1.lines == v.lines.update(s.line as int, j));
        assert(clamp(v1, s) == s);
        assert(d == ls.subrange(bs, be));
        assert(no_lf(d));
        lemma_lf_pieces_append(Seq::<u8>::empty(), d);
        assert(Seq::<u8>::empty() + d =~= d);
        assert(lf_pieces(d) =~= seq![d]);
        assert(d.len() > 0);
    } else {
        let li = s.line as int;
        let j = ls.take(bs) + le.skip(be);
        let l1 = v.lines.take(li).push(j) + v.lines.skip(e.line + 1);
        assert(v1.lines == l1);
        assert(l1[li] == j);
        assert(clamp(v1, s) == s);
        let q = removed_pieces(v, s, e);
        assert(d == join(q, seq![10u8]));
        assert forall|i: int| 0 <= i < q.len() implies no_lf(#[trigger] q[i]) by {
            if i == 0 {
            } else if i < q.len() - 1 {
                assert(q[i] == v.lines[li + i]);
                assert(line_ok(v.lines[li + i]));
            } else {
            }
        }
        lemma_lf_pieces_join(q);
        let n = q.len();
        assert(n == e.line - s.line + 1);
        assert(d.len() > 0) by {
            if d.len() == 0 {
                assert(lf_pieces(d).len() == 1);
            }
        }
        assert(q[n - 1] == le.take(be));
    }
}

/// Valid lines joined by LF are valid UTF-8.
proof fn lemma_join_valid(q: Seq<Seq<u8>>)
    requires
        q.len() >= 1,
        forall|i: int| 0 <= i < q.len() ==> valid_utf8(#[trigger] q[i]),
    ensures
        valid_utf8(join(q, seq![10u8])),
    decreases q.len(),
{
    if q.len() > 1 {
        let q1 = q.drop_last();
        assert forall|i: int| 0 <= i < q1.len() implies valid_utf8(#[trigger] q1[i]) by {
            assert(q1[i] == q[i]);
        }
        lemma_join_valid(q1);
        super::buffer::lemma_valid_join_step(join(q1, seq![10u8]), q.last());
        assert(q1.push(q.last()) =~= q);
        super::buffer::lemma_join_push(q1, q.last(), seq![10u8]);
    }
}

/// The text a deletion removes from a well-formed buffer is valid UTF-8.
proof fn lemma_removed_valid(v: BufferView, s: Position, e: Position)
    requires
        v.wf(),
        s == clamp(v, s),
        e == clamp(v, e),
        pos_le(s, e),
        segmented(v.lines[s.line as int]),
        segmented(v.lines[e.line as int]),
    ensures
        valid_utf8(delete_spec(v, s, e).1),
{
    let ls = v.lines[s.line as int];
    let le = v.lines[e.line as int];
    let bs = gbyte(ls, s.grapheme as int);
    let be = gbyte(le, e.grapheme as int);
    assert(line_ok(ls));
    assert(line_ok(le));
    lemma_gbyte(ls, s.grapheme as int);
    lemma_gbyte(le, e.grapheme as int);
    assert(normalized(v, s, e) == (s, e));
    if s == e {
        assert(valid_utf8(Seq::<u8>::empty()));
    } else if s.line == e.line {
        lemma_sub_valid(ls, bs, be);
    } else {
        lemma_line_ok_split(ls, bs);
        lemma_line_ok_split(le, be);
        let q = removed_pieces(v, s, e);
        assert forall|i: int| 0 <= i < q.len() implies valid_utf8(#[trigger] q[i]) by {
            if i == 0 {
            } else if i < q.len() - 1 {
                assert(q[i] == v.lines[s.line + i]);
                assert(line_ok(v.lines[s.line + i]));
            } else {
            }
        }
        lemma_join_valid(q);
    }
}

/// A recorded deletion between ordered clamped positions, as a new undo step,
/// is taken back by one undo when its ends join cleanly; the redo after it
/// deletes again.  Backspace, forward delete, the word and line deletions and
/// cut all record their deletions this way.
pub proof fn law_recorded_delete_undo(
    e: EditorState,
    start: Position,
    end: Position,
    cursor_after: Position,
    kind: EditKind,
)
    requires
        e.wf(),
        start == clamp(e.buffer, start),
        end == clamp(e.buffer, end),
        pos_le(start, end),
        segmented(e.buffer.lines[start.line as int]),
        segmented(e.buffer.lines[end.line as int]),
        delete_joins_cleanly(e.buffer, start, end),
        delete_recorded_spec(e, start, end, cursor_after, kind).undo.undo.len() == e.undo.undo.len() + 1,
    ensures
        undo_spec(delete_recorded_spec(e, start, end, cursor_after, kind)).buffer == e.buffer,
        undo_spec(delete_recorded_spec(e, start, end, cursor_after, kind)).cursor == clamp(e.buffer, e.cursor),
        undo_spec(delete_recorded_spec(e, start, end, cursor_after, kind)).undo.undo == e.undo.undo,
        redo_spec(undo_spec(delete_recorded_spec(e, start, end, cursor_after, kind))).buffer
            == delete_recorded_spec(e, start, end, cursor_after, kind).buffer,
{
    lemma_apply_insert(delete_spec(e.buffer, start, end).0, start, decode_utf8(delete_spec(e.buffer, start, end).1));
    lemma_apply_delete(e.buffer, start, end);
    let (b, d) = delete_spec(e.buffer, start, end);
    let e1 = delete_recorded_spec(e, start, end, cursor_after, kind);
    assert(d.len() > 0);
    law_delete_then_insert(e.buffer, start, end);
    lemma_removed_valid(e.buffer, start, end);
    decode_utf8_encode_utf8(d);
    let g = e1.undo.undo.last();
    assert(e1.undo.undo == e.undo.undo.push(g));
    assert(e1.undo.undo.drop_last() =~= e.undo.undo);
    let del = OpView::Delete { start, end };
    let ins = OpView::Insert { pos: start, text: decode_utf8(d) };
    assert(g.inverse == seq![ins]);
    assert(g.forward == seq![del]);
    assert(g.inverse.drop_last() =~= Seq::<OpView>::empty());
    assert(apply_backward(b, g.inverse) == apply_backward(apply_op(b, ins), Seq::<OpView>::empty()));
    assert(g.forward.drop_last() =~= Seq::<OpView>::empty());
    assert(apply_forward(e.buffer, g.forward) == apply_op(apply_forward(e.buffer, Seq::<OpView>::empty()), del));
}

/// Counting the sorted starts below `b`: past start `g` when `b` lies beyond
/// it, not past it when `b` is at most that start.
proof fn lemma_starts_below(st: Seq<usize>, b: int, g: int)
    requires
        forall|i: int, j: int| 0 <= i < j < st.len() ==> st[i] < st[j],
        0 <= g < st.len(),
    ensures
        b > st[g] ==> starts_below(st, b) >= g + 1,
        b <= st[g] ==> starts_below(st, b) <= g,
    decreases st.len(),
{
    if st.len() > 0 && st[0] < b {
        if g > 0 {
            let rest = st.drop_first();
            assert forall|i: int, j: int| 0 <= i < j < rest.len() implies rest[i] < rest[j] by {
                assert(rest[i] == st[i + 1] && rest[j] == st[j + 1]);
            }
            assert(rest[g - 1] == st[g]);
            lemma_starts_below(rest, b, g - 1);
        }
    }
}

/// The value of `starts_below` never exceeds the number of starts.
proof fn lemma_starts_below_bound(st: Seq<usize>, b: int)
    ensures
        starts_below(st, b) <= st.len(),
    decreases st.len(),
{
    if st.len() > 0 && st[0] < b {
        lemma_starts_below_bound(st.drop_first(), b);
    }
}

/// The end the right scan finds lies after the byte it starts from.
proof fn lemma_right_scan_after(ranges: Seq<(int, int)>, line: Seq<u8>, byte: int)
    ensures
        right_scan(ranges, line, byte) matches Some(end) ==> end > byte,
    decreases ranges.len(),
{
    if ranges.len() > 0 {
        lemma_right_scan_after(ranges.drop_first(), line, byte);
    }
}

/// The start the left scan finds lies before the byte it starts from.
proof fn lemma_left_scan_before(ranges: Seq<(int, int)>, line: Seq<u8>, byte: int, acc: Option<int>)
    requires
        acc matches Some(a) ==> a < byte,
    ensures
        left_scan(ranges, line, byte, acc) matches Some(start) ==> start < byte,
    decreases ranges.len(),
{
    if ranges.len() > 0 && ranges[0].0 < byte {
        if blank(line.subrange(ranges[0].0, ranges[0].1)) {
            lemma_left_scan_before(ranges.drop_first(), line, byte, acc);
        } else {
            lemma_left_scan_before(ranges.drop_first(), line, byte, Some(ranges[0].0));
        }
    }
}

/// Moving a word right never moves the cursor back.
pub proof fn law_word_right_monotonic(v: BufferView, pos: Position)
    requires
        v.wf(),
        pos == clamp(v, pos),
        segmented(v.lines[pos.line as int]),
        v.lines.len() <= usize::MAX,
        v.lines[pos.line as int].len() <= usize::MAX,
    ensures
        pos_le(pos, word_right_spec(v, pos)),
{
    let line = v.lines[pos.line as int];
    let g = pos.grapheme as int;
    let st = line_starts(line);
    assert(line_ok(line));
    lemma_gbyte(line, g);
    if g < gcount(line) {
        let byte = gbyte(line, g);
        assert(byte == st[g]);
        lemma_right_scan_after(word_ranges_spec(line), line, byte);
        match right_scan(word_ranges_spec(line), line, byte) {
            Some(end) => {
                lemma_starts_below(st, end, g);
                lemma_starts_below_bound(st, end);
            },
            None => {},
        }
    }
}

/// Moving a word left never moves the cursor forward.
pub proof fn law_word_left_monotonic(v: BufferView, pos: Position)
    requires
        v.wf(),
        pos == clamp(v, pos),
        segmented(v.lines[pos.line as int]),
    ensures
        pos_le(word_left_spec(v, pos), pos),
{
    let line = v.lines[pos.line as int];
    let g = pos.grapheme as int;
    let st = line_starts(line);
    assert(line_ok(line));
    lemma_gbyte(line, g);
    if g > 0 {
        let byte = gbyte(line, g);
        lemma_left_scan_before(word_ranges_spec(line), line, byte, None);
        match left_scan(word_ranges_spec(line), line, byte, None) {
            Some(start) => {
                if g < gcount(line) {
                    assert(byte == st[g]);
                    lemma_starts_below(st, start, g);
                } else {
                    lemma_starts_below_bound(st, start);
                }
            },
            None => {},
        }
    }
}

/// The scan finds starts from `start` on, each leaving room for the needle
/// and each at least a needle's length after the one before.
proof fn lemma_scan_matches(hay: Seq<Seq<u8>>, needle: Seq<Seq<u8>>, start: int)
    ensures
        forall|k: int|
            0 <= k < scan_matches(hay, needle, start).len() ==> start <= #[trigger] scan_matches(
                hay,
                needle,
                start,
            )[k] && scan_matches(hay, needle, start)[k] + needle.len() <= hay.len(),
        forall|k: int|
            0 <= k < scan_matches(hay, needle, start).len() - 1 ==> #[trigger] scan_matches(
                hay,
                needle,
                start,
            )[k] + needle.len() <= scan_matches(hay, needle, start)[k + 1],
    decreases hay.len() - start,
{
    if start < 0 || needle.len() == 0 || start + needle.len() > hay.len() {
        assert(scan_matches(hay, needle, start).len() == 0);
    } else if hay.subrange(start, start + needle.len()) == needle {
        lemma_scan_matches(hay, needle, start + needle.len());
        let rest = scan_matches(hay, needle, start + needle.len());
        let r = scan_matches(hay, needle, start);
        assert(r == seq![start] + rest);
        assert forall|k: int| 0 <= k < r.len() - 1 implies #[trigger] r[k] + needle.len() <= r[k + 1] by {
            if k == 0 {
                if rest.len() > 0 {
                    assert(r[1] == rest[0]);
                }
            } else {
                assert(r[k] == rest[k - 1] && r[k + 1] == rest[k]);
            }
        }
        assert forall|k: int| 0 <= k < r.len() implies start <= #[trigger] r[k] && r[k] + needle.len() <= hay.len() by {
            if k > 0 {
                assert(r[k] == rest[k - 1]);
            }
        }
    } else {
        lemma_scan_matches(hay, needle, start + 1);
        let r = scan_matches(hay, needle, start);
        let rest = scan_matches(hay, needle, start + 1);
        assert(r == rest);
        assert forall|k: int| 0 <= k < r.len() implies start <= #[trigger] r[k] && r[k] + needle.len() <= hay.len() by {
            assert(start + 1 <= rest[k]);
        }
        assert forall|k: int| 0 <= k < r.len() - 1 implies #[trigger] r[k] + needle.len() <= r[k + 1] by {
            assert(rest[k] + needle.len() <= rest[k + 1]);
        }
    }
}

/// Matches that are non-empty, stay on one line, and follow each other
/// without overlapping.
pub open spec fn ordered_matches(m: Seq<(Position, Position)>) -> bool {
    &&& forall|i: int| 0 <= i < m.len() ==> pos_lt((#[trigger] m[i]).0, m[i].1) && m[i].0.line == m[i].1.line
    &&& forall|i: int| 0 <= i < m.len() - 1 ==> pos_le((#[trigger] m[i]).1, m[i + 1].0)
}

proof fn lemma_matches_upto(v: BufferView, needle: Seq<Seq<u8>>, case_sensitive: bool, n: int)
    requires
        needle.len() > 0,
        0 <= n <= v.lines.len(),
        v.lines.len() <= usize::MAX,
        forall|i: int| 0 <= i < v.lines.len() ==> normalized_clusters(#[trigger] v.lines[i], case_sensitive).len() <= usize::MAX,
    ensures
        ordered_matches(matches_upto(v, needle, case_sensitive, n)),
        forall|k: int|
            0 <= k < matches_upto(v, needle, case_sensitive, n).len() ==> (#[trigger] matches_upto(
                v,
                needle,
                case_sensitive,
                n,
            )[k]).0.line < n,
    decreases n,
{
    if n > 0 {
        lemma_matches_upto(v, needle, case_sensitive, n - 1);
        let prev = matches_upto(v, needle, case_sensitive, n - 1);
        let hay = normalized_clusters(v.lines[n - 1], case_sensitive);
        lemma_scan_matches(hay, needle, 0);
        let starts = scan_matches(hay, needle, 0);
        let lm = line_matches(v, n - 1, needle, case_sensitive);
        assert(lm.len() == starts.len());
        assert forall|k: int| 0 <= k < lm.len() implies (#[trigger] lm[k]).0 == (Position {
            line: (n - 1) as usize,
            grapheme: starts[k] as usize,
        }) && lm[k].1 == (Position { line: (n - 1) as usize, grapheme: (starts[k] + needle.len()) as usize })
            && 0 <= starts[k] && starts[k] + needle.len() <= usize::MAX by {
            assert(0 <= starts[k] && starts[k] + needle.len() <= hay.len());
        }
        let all = matches_upto(v, needle, case_sensitive, n);
        assert(all == prev + lm);
        assert forall|i: int| 0 <= i < all.len() implies pos_lt((#[trigger] all[i]).0, all[i].1) && all[i].0.line
            == all[i].1.line && all[i].0.line < n by {
            if i >= prev.len() {
                assert(all[i] == lm[i - prev.len()]);
            } else {
                assert(all[i] == prev[i]);
            }
        }
        assert forall|i: int| 0 <= i < all.len() - 1 implies pos_le((#[trigger] all[i]).1, all[i + 1].0) by {
            if i + 1 < prev.len() {
                assert(all[i] == prev[i] && all[i + 1] == prev[i + 1]);
            } else if i + 1 == prev.len() {
                assert(all[i] == prev[i] && all[i + 1] == lm[0]);
            } else {
                let k = i - prev.len();
                assert(all[i] == lm[k] && all[i + 1] == lm[k + 1]);
                assert(starts[k] + needle.len() <= starts[k + 1]);
            }
        }
    }
}

/// The matches a search finds are non-empty, each on one line, in buffer
/// order, and never overlap.
pub proof fn law_find_matches_ordered(v: BufferView, query: Seq<u8>, case_sensitive: bool)
    requires
        v.wf(),
        v.lines.len() <= usize::MAX,
        forall|i: int| 0 <= i < v.lines.len() ==> normalized_clusters(#[trigger] v.lines[i], case_sensitive).len() <= usize::MAX,
    ensures
        ordered_matches(find_matches_spec(v, query, case_sensitive)),
{
    let needle = normalized_clusters(query, case_sensitive);
    if query.len() == 0 || query.contains(10u8) || query.contains(13u8) || needle.len() == 0 {
        assert(find_matches_spec(v, query, case_sensitive) =~= Seq::<(Position, Position)>::empty());
    } else {
        lemma_matches_upto(v, needle, case_sensitive, v.lines.len() as int);
    }
}

/// A line break inserted as a new undo step (what `insert_line_after`,
/// `insert_line_before` and Enter record) is taken back by one undo when the
/// two halves of the line keep their grapheme boundaries; the redo after it
/// breaks the line again.
pub proof fn law_insert_break_undo(e: EditorState, insert_at: Position, new_line: int)
    requires
        e.wf(),
        insert_at == clamp(e.buffer, insert_at),
        segmented(e.buffer.lines[insert_at.line as int]),
        insert_spec(e.buffer, insert_at, seq![10u8]).0.lines.len() <= usize::MAX,
        insert_joins_cleanly(e.buffer, insert_at, seq![10u8]),
        insert_break_spec(e, insert_at, new_line).undo.undo.len() == e.undo.undo.len() + 1,
    ensures
        undo_spec(insert_break_spec(e, insert_at, new_line)).buffer == e.buffer,
        undo_spec(insert_break_spec(e, insert_at, new_line)).cursor == clamp(e.buffer, e.cursor),
        undo_spec(insert_break_spec(e, insert_at, new_line)).undo.undo == e.undo.undo,
        redo_spec(undo_spec(insert_break_spec(e, insert_at, new_line))).buffer == insert_break_spec(
            e,
            insert_at,
            new_line,
        ).buffer,
{
    lemma_apply_delete(insert_spec(e.buffer, insert_at, seq![10u8]).0, insert_at, insert_spec(e.buffer, insert_at, seq![10u8]).1);
    lemma_apply_insert(e.buffer, insert_at, seq!['\n']);
    let text = seq!['\n'];
    super::unicode::lemma_encode_newline(text);
    let (v1, after) = insert_spec(e.buffer, insert_at, seq![10u8]);
    let e1 = insert_break_spec(e, insert_at, new_line);
    law_insert_then_delete(e.buffer, insert_at, text);
    let g = e1.undo.undo.last();
    assert(e1.undo.undo == e.undo.undo.push(g));
    assert(e1.undo.undo.drop_last() =~= e.undo.undo);
    let del = OpView::Delete { start: insert_at, end: after };
    let ins = OpView::Insert { pos: insert_at, text };
    assert(g.inverse == seq![del]);
    assert(g.forward == seq![ins]);
    assert(g.inverse.drop_last() =~= Seq::<OpView>::empty());
    assert(apply_backward(v1, g.inverse) == apply_backward(apply_op(v1, del), Seq::<OpView>::empty()));
    assert(g.forward.drop_last() =~= Seq::<OpView>::empty());
    assert(apply_forward(e.buffer, g.forward) == apply_op(apply_forward(e.buffer, Seq::<OpView>::empty()), ins));
}

/// A deletion between ordered clamped positions keeps the buffer well formed
/// and, when its ends join cleanly, leaves its start inside the buffer.
proof fn lemma_delete_wf(v: BufferView, s: Position, e: Position)
    requires
        v.wf(),
        s == clamp(v, s),
        e == clamp(v, e),
        pos_le(s, e),
        segmented(v.lines[s.line as int]),
        segmented(v.lines[e.line as int]),
        delete_joins_cleanly(v, s, e),
    ensures
        delete_spec(v, s, e).0.wf(),
        s == clamp(delete_spec(v, s, e).0, s),
{
    let b1 = delete_spec(v, s, e).0;
    let ls = v.lines[s.line as int];
    let le = v.lines[e.line as int];
    let bs = gbyte(ls, s.grapheme as int);
    let be = gbyte(le, e.grapheme as int);
    assert(line_ok(ls));
    assert(line_ok(le));
    lemma_gbyte(ls, s.grapheme as int);
    lemma_gbyte(le, e.grapheme as int);
    assert(normalized(v, s, e) == (s, e));
    if s == e {
    } else {
        lemma_line_ok_split(ls, bs);
        lemma_line_ok_split(le, be);
        super::buffer::lemma_line_ok_concat(ls.take(bs), le.skip(be));
        if s.line == e.line {
            assert(bs <= be);
            assert(ls.skip(be) == le.skip(be));
            assert forall|i: int| 0 <= i < b1.lines.len() implies line_ok(#[trigger] b1.lines[i]) by {
                if i != s.line {
                    assert(b1.lines[i] == v.lines[i]);
                }
            }
        } else {
            let l1 = v.lines.take(s.line as int).push(ls.take(bs) + le.skip(be)) + v.lines.skip(e.line + 1);
            assert(b1.lines == l1);
            assert forall|i: int| 0 <= i < l1.len() implies line_ok(#[trigger] l1[i]) by {
                if i < s.line {
                    assert(l1[i] == v.lines[i]);
                } else if i > s.line {
                    assert(l1[i] == v.lines[i - s.line - 1 + e.line + 1]);
                }
            }
        }
    }
}

/// Typing over a selection (one undo step: delete the selection, insert the
/// text) is taken back by one undo when both edits join cleanly; the redo
/// after it replaces the selection again.
#[verifier::rlimit(40)]
pub proof fn law_replace_selection_undo(e: EditorState, text: Seq<char>)
    requires
        e.wf(),
        text.len() > 0,
        nonempty_range(e.selection) is Some,
        nonempty_range(e.selection).unwrap().0 == clamp(e.buffer, nonempty_range(e.selection).unwrap().0),
        nonempty_range(e.selection).unwrap().1 == clamp(e.buffer, nonempty_range(e.selection).unwrap().1),
        segmented(e.buffer.lines[nonempty_range(e.selection).unwrap().0.line as int]),
        segmented(e.buffer.lines[nonempty_range(e.selection).unwrap().1.line as int]),
        delete_joins_cleanly(e.buffer, nonempty_range(e.selection).unwrap().0, nonempty_range(e.selection).unwrap().1),
        ({
            let (s, t) = nonempty_range(e.selection).unwrap();
            let b1 = delete_spec(e.buffer, s, t).0;
            &&& segmented(b1.lines[s.line as int])
            &&& insert_spec(b1, s, encode_utf8(text)).0.lines.len() <= usize::MAX
            &&& insert_joins_cleanly(b1, s, encode_utf8(text))
        }),
    ensures
        undo_spec(insert_text_spec(e, text)).buffer == e.buffer,
        undo_spec(insert_text_spec(e, text)).cursor == clamp(e.buffer, e.cursor),
        undo_spec(insert_text_spec(e, text)).undo.undo == e.undo.undo,
        redo_spec(undo_spec(insert_text_spec(e, text))).buffer == insert_text_spec(e, text).buffer,
{
    let (s, t) = nonempty_range(e.selection).unwrap();
    let (b1, d) = delete_spec(e.buffer, s, t);
    let bytes = encode_utf8(text);
    let (b2, after) = insert_spec(b1, s, bytes);
    let e1 = insert_text_spec(e, text);
    law_delete_then_insert(e.buffer, s, t);
    lemma_removed_valid(e.buffer, s, t);
    decode_utf8_encode_utf8(d);
    lemma_delete_wf(e.buffer, s, t);
    law_insert_then_delete(b1, s, text);
    assert(e1.buffer == b2);
    let g = e1.undo.undo.last();
    assert(e1.undo.undo == e.undo.undo.push(g));
    assert(e1.undo.undo.drop_last() =~= e.undo.undo);
    let del_sel = OpView::Delete { start: s, end: t };
    let ins_text = OpView::Insert { pos: s, text };
    let ins_old = OpView::Insert { pos: s, text: decode_utf8(d) };
    let del_new = OpView::Delete { start: s, end: after };
    assert(g.inverse == seq![ins_old, del_new]);
    assert(g.forward == seq![del_sel, ins_text]);
    lemma_two_back(b2, ins_old, del_new);
    lemma_two_forward(e.buffer, del_sel, ins_text);
    lemma_apply_delete(b2, s, after);
    lemma_apply_insert(b1, s, decode_utf8(d));
    lemma_apply_delete(e.buffer, s, t);
    lemma_apply_insert(b1, s, text);
}

/// Two operations applied last to first.
proof fn lemma_two_back(v: BufferView, a: OpView, b: OpView)
    ensures
        apply_backward(v, seq![a, b]) == apply_op(apply_op(v, b), a),
{
    let ops = seq![a, b];
    assert(ops.drop_last() =~= seq![a]);
    assert(seq![a].drop_last() =~= Seq::<OpView>::empty());
    let v1 = apply_op(v, b);
    assert(apply_backward(v, ops) == apply_backward(v1, seq![a]));
    assert(apply_backward(v1, seq![a]) == apply_backward(apply_op(v1, a), Seq::<OpView>::empty()));
}

/// Two operations applied first to last.
proof fn lemma_two_forward(w: BufferView, c: OpView, d: OpView)
    ensures
        apply_forward(w, seq![c, d]) == apply_op(apply_op(w, c), d),
{
    let ops = seq![c, d];
    assert(ops.drop_last() =~= seq![c]);
    assert(ops.last() == d);
    let one = seq![c];
    assert(one.drop_last() =~= Seq::<OpView>::empty());
    assert(one.last() == c);
    assert(apply_forward(w, one) == apply_op(apply_forward(w, Seq::<OpView>::empty()), c));
}

/// Replacements in `(start, end)` order, each key not above the next.
pub open spec fn replacements_ordered(s: Seq<(Position, Position, Seq<char>)>) -> bool {
    forall|i: int, j: int| 0 <= i < j < s.len() ==> key_le(#[trigger] s[i], #[trigger] s[j])
}

proof fn lemma_insert_by_start(s: Seq<(Position, Position, Seq<char>)>, x: (Position, Position, Seq<char>))
    requires
        replacements_ordered(s),
    ensures
        replacements_ordered(insert_by_start(s, x)),
        insert_by_start(s, x).to_multiset() == s.to_multiset().insert(x),
        forall|k: int| 0 <= k < insert_by_start(s, x).len() ==> #[trigger] insert_by_start(s, x)[k] == x || s.contains(insert_by_start(s, x)[k]),
    decreases s.len(),
{
    broadcast use vstd::seq_lib::group_to_multiset_ensures;

    if s.len() == 0 {
        assert(seq![x] =~= Seq::<(Position, Position, Seq<char>)>::empty().push(x));
    } else if key_le(s.last(), x) {
        let out = s.push(x);
        assert(replacements_ordered(out)) by {
            assert forall|i: int, j: int| 0 <= i < j < out.len() implies key_le(#[trigger] out[i], #[trigger] out[j]) by {
                if j == out.len() - 1 {
                    if i < s.len() - 1 {
                        assert(key_le(s[i], s[s.len() - 1]));
                    }
                } else {
                    assert(out[i] == s[i] && out[j] == s[j]);
                }
            }
        }
        assert forall|k: int| 0 <= k < out.len() implies #[trigger] out[k] == x || s.contains(out[k]) by {
            if k < s.len() {
                assert(out[k] == s[k]);
            }
        }
    } else {
        let p = s.drop_last();
        let last = s.last();
        assert(replacements_ordered(p)) by {
            assert forall|i: int, j: int| 0 <= i < j < p.len() implies key_le(#[trigger] p[i], #[trigger] p[j]) by {
                assert(p[i] == s[i] && p[j] == s[j]);
            }
        }
        lemma_insert_by_start(p, x);
        let r = insert_by_start(p, x);
        assert forall|k: int| 0 <= k < r.len() implies key_le(#[trigger] r[k], last) by {
            if r[k] != x {
                let m = choose|m: int| 0 <= m < p.len() && p[m] == r[k];
                assert(s[m] == p[m]);
                assert(key_le(s[m], s[s.len() - 1]));
            }
        }
        let out = r.push(last);
        assert(replacements_ordered(out)) by {
            assert forall|i: int, j: int| 0 <= i < j < out.len() implies key_le(#[trigger] out[i], #[trigger] out[j]) by {
                if j == out.len() - 1 {
                    assert(out[i] == r[i]);
                } else {
                    assert(out[i] == r[i] && out[j] == r[j]);
                }
            }
        }
        assert(s =~= p.push(last));
        assert forall|k: int| 0 <= k < out.len() implies #[trigger] out[k] == x || s.contains(out[k]) by {
            if k == out.len() - 1 {
                assert(s[s.len() - 1] == out[k]);
            } else {
                assert(out[k] == r[k]);
                if r[k] != x {
                    let m = choose|m: int| 0 <= m < p.len() && p[m] == r[k];
                    assert(s[m] == r[k]);
                }
            }
        }
    }
}

/// `replace_ranges` and replace-all apply their replacements in `(start,
/// end)` order, each one exactly as often as it was given.
pub proof fn law_replacements_sorted(rs: Seq<(Position, Position, Seq<char>)>)
    ensures
        replacements_ordered(sort_spec(rs)),
        sort_spec(rs).to_multiset() == rs.to_multiset(),
    decreases rs.len(),
{
    broadcast use vstd::seq_lib::group_to_multiset_ensures;

    if rs.len() == 0 {
        assert(sort_spec(rs) =~= rs);
    } else {
        law_replacements_sorted(rs.drop_last());
        lemma_insert_by_start(sort_spec(rs.drop_last()), rs.last());
        assert(rs =~= rs.drop_last().push(rs.last()));
    }
}

/// Page down puts the cursor `rows` lines below its (clamped) line, or on
/// the last line when fewer are left, so its line never decreases; page up
/// puts it `rows` lines above, or on the first line. Both keep the preferred
/// column where the target line is long enough, else go to its end.
pub proof fn law_page_motions(e: EditorState, rows: usize, extend: bool)
    requires
        e.wf(),
        e.buffer.lines.len() <= usize::MAX,
    ensures
        ({
            let v = e.buffer;
            let c = clamp(v, e.cursor).line as int;
            let last = v.lines.len() - 1;
            let down = move_cursor_spec(e, Motion::PageDown { rows }, extend).cursor;
            let up = move_cursor_spec(e, Motion::PageUp { rows }, extend).cursor;
            &&& down.line == (if c + rows <= last { c + rows } else { last })
            &&& c <= down.line
            &&& down.grapheme == (if e.preferred_grapheme <= gcount(v.lines[down.line as int]) {
                e.preferred_grapheme as int
            } else {
                gcount(v.lines[down.line as int]) as int
            })
            &&& up.line == (if c >= rows { c - rows } else { 0 })
            &&& up.line <= c
            &&& up.grapheme == (if e.preferred_grapheme <= gcount(v.lines[up.line as int]) {
                e.preferred_grapheme as int
            } else {
                gcount(v.lines[up.line as int]) as int
            })
        }),
{
    let v = e.buffer;
    lemma_clamp_idem(v, e.cursor);
    let c = clamp(v, e.cursor);
    let pd = super::movement::vertical_spec(v, c.line + rows, e.preferred_grapheme as int);
    let pu = super::movement::vertical_spec(
        v,
        super::movement::sat_sub(c.line as int, rows as int),
        e.preferred_grapheme as int,
    );
    assert(super::editor::motion_spec(v, c, e.preferred_grapheme, Motion::PageDown { rows }) == pd);
    assert(super::editor::motion_spec(v, c, e.preferred_grapheme, Motion::PageUp { rows }) == pu);
    assert(clamp(v, pd) == pd);
    assert(clamp(v, pu) == pu);
}

/// Where each line and buffer motion puts the cursor, measured from the
/// clamped cursor `c`: down and up move one line (stopping at the first and
/// last lines) and keep the preferred column as far as the line is long;
/// line start and end go to column 0 and past the last grapheme of `c`'s
/// line; buffer start and end go to the first and the very last position.
/// Vertical motions keep the preferred column, the others set it to the new
/// column. With `extend` the selection runs from the old anchor (or `c`) to
/// the new cursor; without it there is no selection.
pub proof fn law_line_and_buffer_motions(e: EditorState, motion: Motion, extend: bool)
    requires
        e.wf(),
        e.buffer.lines.len() <= usize::MAX,
        motion is Up || motion is Down || motion is LineStart || motion is LineEnd
            || motion is BufferStart || motion is BufferEnd,
    ensures
        ({
            let v = e.buffer;
            let c = clamp(v, e.cursor);
            let last = v.lines.len() - 1;
            let p = e.preferred_grapheme as int;
            let after = move_cursor_spec(e, motion, extend);
            let line = after.cursor.line as int;
            let col = after.cursor.grapheme as int;
            &&& (motion is Down ==> line == (if c.line + 1 <= last { c.line + 1 } else { last }))
            &&& (motion is Up ==> line == (if c.line >= 1 { c.line - 1 } else { 0 }))
            &&& ((motion is Up || motion is Down) ==> {
                &&& col == (if p <= gcount(v.lines[line]) { p } else { gcount(v.lines[line]) as int })
                &&& after.preferred_grapheme == e.preferred_grapheme
            })
            &&& (motion is LineStart ==> line == c.line && col == 0)
            &&& (motion is LineEnd ==> line == c.line && after.cursor.grapheme == gcount(v.lines[c.line as int]) as usize)
            &&& (motion is BufferStart ==> line == 0 && col == 0)
            &&& (motion is BufferEnd ==> line == last && after.cursor.grapheme == gcount(v.lines[last]) as usize)
            &&& (!(motion is Up || motion is Down) ==> after.preferred_grapheme == col)
            &&& after.selection == (if extend {
                Some(Selection {
                    anchor: match e.selection {
                        Some(s) => s.anchor,
                        None => c,
                    },
                    head: after.cursor,
                })
            } else {
                None
            })
            &&& after.buffer == v
            &&& after.undo == e.undo
        }),
{
    let v = e.buffer;
    lemma_clamp_idem(v, e.cursor);
    let c = clamp(v, e.cursor);
    let next = super::editor::motion_spec(v, c, e.preferred_grapheme, motion);
    match motion {
        Motion::Up => assert(clamp(v, next) == next),
        Motion::Down => assert(clamp(v, next) == next),
        Motion::LineStart => assert(clamp(v, next) == next),
        Motion::LineEnd => assert(clamp(v, next) == next),
        Motion::BufferStart => assert(clamp(v, next) == next),
        _ => assert(clamp(v, next) == next),
    }
}

/// Left and right: without `extend`, a selection collapses to its start
/// (left) or end (right) and is dropped; otherwise the cursor steps one
/// grapheme from the clamped cursor `c`, wrapping to the end of the line
/// above or the start of the line below, and staying put at the first and
/// very last positions. The preferred column follows the new column.
pub proof fn law_left_and_right(e: EditorState, extend: bool)
    requires
        e.wf(),
        e.buffer.lines.len() <= usize::MAX,
    ensures
        ({
            let v = e.buffer;
            let c = clamp(v, e.cursor);
            let l = move_cursor_spec(e, Motion::Left, extend);
            let r = move_cursor_spec(e, Motion::Right, extend);
            let len_c = gcount(v.lines[c.line as int]) as int;
            &&& l.preferred_grapheme == l.cursor.grapheme
            &&& r.preferred_grapheme == r.cursor.grapheme
            &&& l.buffer == v && r.buffer == v
            &&& if !extend && e.selection is Some {
                let s = e.selection->0;
                let (lo, hi) = if pos_le(s.anchor, s.head) {
                    (s.anchor, s.head)
                } else {
                    (s.head, s.anchor)
                };
                &&& l.cursor == clamp(v, lo)
                &&& r.cursor == clamp(v, hi)
                &&& l.selection is None
                &&& r.selection is None
            } else {
                &&& (c.grapheme > 0 ==> l.cursor == Position { line: c.line, grapheme: (c.grapheme - 1) as usize })
                &&& (c.grapheme == 0 && c.line > 0 ==> l.cursor.line == c.line - 1
                    && l.cursor.grapheme == gcount(v.lines[c.line - 1]) as usize)
                &&& (c.grapheme == 0 && c.line == 0 ==> l.cursor == c)
                &&& (c.grapheme < len_c ==> r.cursor == Position { line: c.line, grapheme: (c.grapheme + 1) as usize })
                &&& (c.grapheme == len_c && c.line + 1 < v.lines.len() ==> r.cursor == Position {
                    line: (c.line + 1) as usize,
                    grapheme: 0,
                })
                &&& (c.grapheme == len_c && c.line + 1 == v.lines.len() ==> r.cursor == c)
                &&& l.selection == (if extend {
                    Some(Selection {
                        anchor: match e.selection {
                            Some(s) => s.anchor,
                            None => c,
                        },
                        head: l.cursor,
                    })
                } else {
                    None
                })
                &&& r.selection == (if extend {
                    Some(Selection {
                        anchor: match e.selection {
                            Some(s) => s.anchor,
                            None => c,
                        },
                        head: r.cursor,
                    })
                } else {
                    None
                })
            }
        }),
{
    let v = e.buffer;
    lemma_clamp_idem(v, e.cursor);
    let c = clamp(v, e.cursor);
    let ln = super::movement::left_spec(v, c);
    let rn = super::movement::right_spec(v, c);
    assert(clamp(v, ln) == ln);
    assert(clamp(v, rn) == rn);
    if e.selection is Some {
        let s = e.selection->0;
        lemma_clamp_idem(v, s.anchor);
        lemma_clamp_idem(v, s.head);
    }
}

/// The first and last line that the line commands work on. Without a
/// selection, the cursor's line; with one, the selection's first line to its
/// last, where a selection ending at column 0 of a later line stops on the
/// line before; both held to the last line.
pub open spec fn touched_lines(e: EditorState) -> (int, int) {
    let last = e.buffer.lines.len() - 1;
    match nonempty_range(e.selection) {
        None => {
            let c: int = if e.cursor.line <= last { e.cursor.line as int } else { last };
            (c, c)
        },
        Some((s, t)) => {
            let top: int = if t.grapheme == 0 && t.line > s.line { t.line - 1 } else { t.line as int };
            (if s.line <= last { s.line as int } else { last }, if top <= last { top } else { last })
        },
    }
}

/// Moving lines up swaps the block with the line above it, and moving them
/// down swaps it with the line below; every other line stays. At the top
/// (or bottom) of the buffer the text does not change.
pub proof fn law_move_lines_swap_with_neighbour(e: EditorState)
    requires
        e.wf(),
    ensures
        ({
            let lines = e.buffer.lines;
            let (lo, hi) = touched_lines(e);
            let up = move_lines_up_spec(e).buffer.lines;
            let down = move_lines_down_spec(e).buffer.lines;
            &&& lo == 0 ==> move_lines_up_spec(e) == e
            &&& lo > 0 ==> {
                &&& up.len() == lines.len()
                &&& forall|j: int| lo - 1 <= j < hi ==> #[trigger] up[j] == lines[j + 1]
                &&& up[hi] == lines[lo - 1]
                &&& forall|j: int| 0 <= j < lines.len() && (j < lo - 1 || j > hi) ==> #[trigger] up[j] == lines[j]
            }
            &&& hi + 1 >= lines.len() ==> move_lines_down_spec(e) == e
            &&& hi + 1 < lines.len() ==> {
                &&& down.len() == lines.len()
                &&& down[lo] == lines[hi + 1]
                &&& forall|j: int| lo < j <= hi + 1 ==> #[trigger] down[j] == lines[j - 1]
                &&& forall|j: int| 0 <= j < lines.len() && (j < lo || j > hi + 1) ==> #[trigger] down[j] == lines[j]
            }
        }),
{
    let lines = e.buffer.lines;
    let (first, last) = selected_block_spec(e);
    assert((first, last) == touched_lines(e));
    lemma_decoded_storable(lines);
    let d = decoded(lines);
    assert forall|i: int| 0 <= i < lines.len() implies #[trigger] encode_utf8(d[i]) == lines[i] by {
        assert(encoded(d)[i] == lines[i]);
    }
    if first > 0 {
        let new = d.subrange(first, last + 1).push(d[first - 1]);
        let old = d.subrange(first - 1, last + 1);
        let joined = lines.take(first - 1) + encoded(new) + lines.skip(first - 1 + old.len());
        assert(joined.len() == lines.len());
        assert forall|j: int| first - 1 <= j < last implies #[trigger] joined[j] == lines[j + 1] by {
            assert(encoded(new)[j - first + 1] == encode_utf8(d[j + 1]));
        }
        assert(joined[last] == encoded(new)[last - first + 1]);
        assert forall|j: int| 0 <= j < lines.len() && (j < first - 1 || j > last)
            implies #[trigger] joined[j] == lines[j] by {}
    }
    if last + 1 < lines.len() {
        let new = seq![d[last + 1]] + d.subrange(first, last + 1);
        let old = d.subrange(first, last + 2);
        let joined = lines.take(first) + encoded(new) + lines.skip(first + old.len());
        assert(joined.len() == lines.len());
        assert(joined[first] == encoded(new)[0]);
        assert forall|j: int| first < j <= last + 1 implies #[trigger] joined[j] == lines[j - 1] by {
            assert(encoded(new)[j - first] == encode_utf8(d[j - 1]));
        }
        assert forall|j: int| 0 <= j < lines.len() && (j < first || j > last + 1)
            implies #[trigger] joined[j] == lines[j] by {}
    }
}

/// Indent and outdent rewrite exactly the lines of the block, each by itself,
/// and keep every other line (the block is [`touched_lines`]).
pub proof fn law_indent_rewrites_exactly_the_block(e: EditorState, outdent: bool)
    requires
        e.wf(),
    ensures
        ({
            let lines = e.buffer.lines;
            let (lo, hi) = touched_lines(e);
            let out = line_indent_spec(e, outdent).buffer.lines;
            lo <= hi ==> {
                &&& out.len() == lines.len()
                &&& forall|j: int| 0 <= j < lines.len() && (j < lo || j > hi) ==> #[trigger] out[j] == lines[j]
                &&& forall|j: int| lo <= j <= hi ==> #[trigger] out[j] == indent_line_spec(lines[j], outdent).0
            }
        }),
{
    let lines = e.buffer.lines;
    let (first, last) = selected_block_spec(e);
    if first <= last {
        let block = lines.subrange(first, last + 1);
        let changed = indented_block(e, outdent);
        let joined = lines.take(first) + changed + lines.skip(last + 1);
        assert(joined.len() == lines.len());
        assert forall|j: int| 0 <= j < lines.len() && (j < first || j > last)
            implies #[trigger] line_indent_spec(e, outdent).buffer.lines[j] == lines[j] by {
            if changed != block {
                assert(joined[j] == lines[j]);
            }
        }
        assert forall|j: int| first <= j <= last
            implies #[trigger] line_indent_spec(e, outdent).buffer.lines[j] == indent_line_spec(lines[j], outdent).0 by {
            if changed == block {
                assert(block[j - first] == changed[j - first]);
            } else {
                assert(joined[j] == changed[j - first]);
            }
        }
    }
}

/// A selection that runs down to the very start of a later line does not
/// take that line into the line block: indent and outdent leave it as it is
/// (and rewrite the lines before it), moving the block up leaves it in
/// place, and moving the block down lifts it above the block.
pub proof fn law_block_ends_before_line_selected_to_its_start(e: EditorState, outdent: bool)
    requires
        e.wf(),
        nonempty_range(e.selection) is Some,
        nonempty_range(e.selection).unwrap().1.grapheme == 0,
        nonempty_range(e.selection).unwrap().0.line < nonempty_range(e.selection).unwrap().1.line,
        nonempty_range(e.selection).unwrap().1.line < e.buffer.lines.len(),
    ensures
        ({
            let start = nonempty_range(e.selection).unwrap().0.line as int;
            let k = nonempty_range(e.selection).unwrap().1.line as int;
            let lines = e.buffer.lines;
            let indented = line_indent_spec(e, outdent).buffer.lines;
            &&& indented.len() == lines.len()
            &&& indented[k] == lines[k]
            &&& forall|j: int| start <= j < k ==> #[trigger] indented[j] == indent_line_spec(lines[j], outdent).0
            &&& move_lines_up_spec(e).buffer.lines[k] == lines[k]
            &&& move_lines_down_spec(e).buffer.lines[start] == lines[k]
        }),
{
    let start = nonempty_range(e.selection).unwrap().0.line as int;
    let k = nonempty_range(e.selection).unwrap().1.line as int;
    let v = e.buffer;
    let lines = v.lines;
    let (first, last) = selected_block_spec(e);
    assert(first == start && last == k - 1);
    // indent and outdent
    let block = lines.subrange(first, last + 1);
    let changed = indented_block(e, outdent);
    let joined = lines.take(first) + changed + lines.skip(last + 1);
    assert(joined.len() == lines.len());
    assert(joined[k] == lines[k]);
    assert forall|j: int| start <= j < k implies #[trigger] line_indent_spec(e, outdent).buffer.lines[j] == indent_line_spec(lines[j], outdent).0 by {
        if changed == block {
            assert(block[j - first] == changed[j - first]);
        } else {
            assert(joined[j] == changed[j - first]);
        }
    }
    // moving down: the line after the block comes first
    let d = decoded(lines);
    assert(line_ok(lines[k]));
    decode_utf8_encode_utf8(lines[k]);
    let new = seq![d[last + 1]] + d.subrange(first, last + 1);
    let down = lines.take(first) + encoded(new) + lines.skip(first + d.subrange(first, last + 2).len());
    assert(down[start] == encoded(new)[0]);
}

} // verus!
