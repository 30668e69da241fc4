//! The editor viewport: which part of the buffer is on screen, how long
//! lines wrap into visual rows, and where the cursor lands on screen.

use vstd::prelude::*;
use vstd::string::*;
use vstd::utf8::*;

use crate::model::buffer::{strings_view, BufferView, TextBuffer};
use crate::model::editor::{EditorCore, EditorState};
use crate::model::position::{pos_le, pos_lt, precedes, precedes_or_equals, Position};
use crate::text::{decimal, decimal_string, display_width, grapheme_strings, str_width, text_clusters};

verus! {

broadcast use {vstd::seq::group_seq_axioms, vstd::seq_lib::group_seq_properties};

/// The viewport: first visible line, first visible column (wrap off), and
/// first visible visual row inside the first line (wrap on).
#[derive(Debug, Clone, Copy, PartialEq, Eq, Structural)]
pub struct EditorView {
    pub top_line: usize,
    pub left_col: usize,
    pub top_segment: usize,
}

impl Default for EditorView {
    fn default() -> (res: Self)
        ensures
            res == (EditorView { top_line: 0, left_col: 0, top_segment: 0 }),
    {
        EditorView { top_line: 0, left_col: 0, top_segment: 0 }
    }
}

/// What the status bar shows.
pub struct StatusLine<'a> {
    pub filename: &'a str,
    pub modified: bool,
    pub message: &'a str,
    pub pending: &'a str,
}

/// Cells a grapheme takes in the editor area: a tab is four, and a
/// zero-width grapheme still takes one so the cursor can sit on it.
pub open spec fn cell_width(g: Seq<char>) -> int {
    if g == seq!['\t'] {
        4
    } else if display_width(g) >= 1 {
        display_width(g) as int
    } else {
        1
    }
}

/// Cells of each grapheme of a line.
pub open spec fn line_widths(line: Seq<char>) -> Seq<int> {
    text_clusters(line).map_values(|g: Seq<char>| cell_width(g))
}

/// The segments found so far, the start of the open one, and its width.
pub open spec fn segment_fold(widths: Seq<int>, cols: int) -> (Seq<(usize, usize)>, int, int)
    decreases widths.len(),
{
    if widths.len() == 0 {
        (Seq::empty(), 0, 0)
    } else {
        let (segs, start, w) = segment_fold(widths.drop_last(), cols);
        let index = widths.len() - 1;
        let gw = widths.last();
        if w + gw > cols && index > start {
            (segs.push((start as usize, index as usize)), index, gw)
        } else {
            (segs, start, w + gw)
        }
    }
}

/// The wrap segments of a line: grapheme ranges of at most `cols` cells
/// (at least one column), a grapheme wider than that alone in its segment,
/// and at least one segment per line.
pub open spec fn segments(line: Seq<char>, cols: int) -> Seq<(usize, usize)> {
    let c = if cols >= 1 {
        cols
    } else {
        1
    };
    let ws = line_widths(line);
    let (segs, start, _) = segment_fold(ws, c);
    segs.push((start as usize, ws.len() as usize))
}

/// Cells of graphemes `from..to` of a line.
pub open spec fn cells(ws: Seq<int>, from: int, to: int) -> int
    decreases to - from,
{
    if to <= from {
        0
    } else {
        cells(ws, from, to - 1) + ws[to - 1]
    }
}

/// `a - b`, or zero when `b` is larger.
pub open spec fn sat_diff(a: int, b: int) -> int {
    if a > b {
        a - b
    } else {
        0
    }
}

/// `x` capped at `usize::MAX`.
pub open spec fn capped(x: int) -> usize {
    if x > usize::MAX {
        usize::MAX
    } else if x < 0 {
        0
    } else {
        x as usize
    }
}

pub(crate) fn is_tab(g: &str) -> (res: bool)
    ensures
        res == (g@ == seq!['\t']),
{
    let tab = "\t";
    proof {
        reveal_strlit("\t");
        assert(tab@ =~= seq!['\t']);
    }
    if g.unicode_len() != 1 {
        return false;
    }
    let c = g.get_char(0);
    if c == '\t' {
        assert(g@ =~= seq!['\t']);
        true
    } else {
        false
    }
}

/// Display width of one grapheme in the editor area.
pub fn grapheme_display_width(grapheme: &str) -> (res: usize)
    ensures
        res as int == cell_width(grapheme@),
{
    if is_tab(grapheme) {
        4
    } else {
        let w = str_width(grapheme);
        if w >= 1 {
            w
        } else {
            1
        }
    }
}

/// The cell widths of the graphemes of a line.
fn widths_of(line: &str) -> (res: Vec<usize>)
    ensures
        res@.len() == line_widths(line@).len(),
        forall|i: int| 0 <= i < res@.len() ==> res@[i] as int == #[trigger] line_widths(line@)[i],
{
    let graphemes = grapheme_strings(line);
    let ghost gs = strings_view(graphemes@);
    let mut out: Vec<usize> = Vec::new();
    let mut i: usize = 0;
    while i < graphemes.len()
        invariant
            gs == strings_view(graphemes@),
            gs == text_clusters(line@),
            i <= gs.len(),
            out@.len() == i,
            forall|k: int| 0 <= k < i ==> out@[k] as int == #[trigger] line_widths(line@)[k],
        decreases gs.len() - i,
    {
        let w = grapheme_display_width(graphemes[i].as_str());
        assert(gs[i as int] == graphemes@[i as int]@);
        out.push(w);
        i = i + 1;
    }
    out
}

/// Splits a logical line into wrap segments of at most `cols` display width,
/// as grapheme-index ranges.
pub fn wrap_segments(line: &str, cols: usize) -> (res: Vec<(usize, usize)>)
    ensures
        res@ == segments(line@, cols as int),
        res@.len() >= 1,
        tiles(res@, line_widths(line@).len() as int),
        fits(res@, line_widths(line@), if cols >= 1 { cols as int } else { 1 }),
{
    let cols: usize = if cols >= 1 {
        cols
    } else {
        1
    };
    let widths = widths_of(line);
    let ghost ws = line_widths(line@);
    let mut segs: Vec<(usize, usize)> = Vec::new();
    let mut start: usize = 0;
    let mut width: usize = 0;
    let mut index: usize = 0;
    assert(ws.take(0) =~= Seq::<int>::empty());
    assert(segs@.push((start, index)) =~= seq![(0usize, 0usize)]);
    while index < widths.len()
        invariant
            ws == line_widths(line@),
            widths@.len() == ws.len(),
            forall|i: int| 0 <= i < widths@.len() ==> widths@[i] as int == #[trigger] ws[i],
            cols >= 1,
            index <= ws.len(),
            start <= index,
            start == index ==> width == 0,
            width <= cols || start + 1 == index,
            segment_fold(ws.take(index as int), cols as int) == (segs@, start as int, width as int),
            tiles(segs@.push((start, index)), index as int),
            fits(segs@, ws, cols as int),
            width == cells(ws, start as int, index as int),
        decreases ws.len() - index,
    {
        let gw = widths[index];
        assert(ws.take(index + 1).drop_last() =~= ws.take(index as int));
        assert(ws.take(index + 1).last() == ws[index as int]);
        let ghost before = segs@;
        let ghost old_start = start;
        assert(cells(ws, start as int, index + 1) == cells(ws, start as int, index as int) + ws[index as int]);
        assert(cells(ws, index as int, index + 1) == ws[index as int]) by {
            assert(cells(ws, index as int, index as int) == 0);
        }
        if width as u128 + gw as u128 > cols as u128 && index > start {
            segs.push((start, index));
            start = index;
            width = gw;
        } else {
            width = width + gw;
        }
        proof {
            lemma_segment_step(before, old_start, index, segs@.len() > before.len(), ws, cols as int);
            if segs@.len() > before.len() {
                assert(segs@ == before.push((old_start, index)));
            } else {
                assert(segs@ == before);
            }
        }
        index = index + 1;
    }
    assert(ws.take(ws.len() as int) =~= ws);
    let ghost before = segs@;
    segs.push((start, index));
    assert(seg_fits((start, index), ws, cols as int));
    assert forall|i: int| 0 <= i < segs@.len() implies seg_fits(#[trigger] segs@[i], ws, cols as int) by {
        if i < before.len() {
            assert(segs@[i] == before[i]);
        }
    }
    segs
}

/// One grapheme more: closing the open segment, or growing it, keeps the
/// segments tiling the graphemes seen and fitting their cells.
proof fn lemma_segment_step(segs: Seq<(usize, usize)>, start: usize, index: usize, closed: bool, ws: Seq<int>, cols: int)
    requires
        tiles(segs.push((start, index)), index as int),
        fits(segs, ws, cols),
        start <= index,
        closed ==> start < index,
        closed ==> cells(ws, start as int, index as int) <= cols || start + 1 == index,
        index + 1 <= usize::MAX,
    ensures
        closed ==> tiles(segs.push((start, index)).push((index, (index + 1) as usize)), index + 1)
            && fits(segs.push((start, index)), ws, cols),
        !closed ==> tiles(segs.push((start, (index + 1) as usize)), index + 1),
{
    let prev = segs.push((start, index));
    if closed {
        let t = prev.push((index, (index + 1) as usize));
        assert forall|i: int| 0 <= i < t.len() - 1 implies (#[trigger] t[i]).1 == t[i + 1].0 by {
            if i < prev.len() - 1 {
                assert(t[i] == prev[i] && t[i + 1] == prev[i + 1]);
            }
        }
        assert forall|i: int| 0 <= i < t.len() implies (#[trigger] t[i]).0 <= t[i].1 by {
            if i < prev.len() {
                assert(t[i] == prev[i]);
            }
        }
        assert forall|i: int| 0 <= i < prev.len() implies seg_fits(#[trigger] prev[i], ws, cols) by {
            if i < segs.len() {
                assert(prev[i] == segs[i]);
            }
        }
    } else {
        let t = segs.push((start, (index + 1) as usize));
        assert forall|i: int| 0 <= i < t.len() - 1 implies (#[trigger] t[i]).1 == t[i + 1].0 by {
            assert(t[i] == prev[i]);
            if i + 1 < t.len() - 1 {
                assert(t[i + 1] == prev[i + 1]);
            }
        }
        assert forall|i: int| 0 <= i < t.len() implies (#[trigger] t[i]).0 <= t[i].1 by {
            if i < t.len() - 1 {
                assert(t[i] == prev[i]);
            }
        }
        assert(t[0].0 == 0) by {
            if t.len() > 1 {
                assert(t[0] == prev[0]);
            }
        }
    }
}

/// Every segment fits in `cols` cells, unless it holds a single grapheme.
pub open spec fn fits(segs: Seq<(usize, usize)>, ws: Seq<int>, cols: int) -> bool {
    forall|i: int| 0 <= i < segs.len() ==> seg_fits(#[trigger] segs[i], ws, cols)
}

/// A segment of at most `cols` cells, or of a single grapheme.
pub open spec fn seg_fits(seg: (usize, usize), ws: Seq<int>, cols: int) -> bool {
    seg.1 - seg.0 <= 1 || cells(ws, seg.0 as int, seg.1 as int) <= cols
}

/// Segments that cover graphemes `0..n` in order, without gaps, each
/// running forward.
pub open spec fn tiles(segs: Seq<(usize, usize)>, n: int) -> bool {
    &&& segs.len() >= 1
    &&& segs[0].0 == 0
    &&& segs.last().1 == n
    &&& forall|i: int| 0 <= i < segs.len() ==> (#[trigger] segs[i]).0 <= segs[i].1
    &&& forall|i: int| 0 <= i < segs.len() - 1 ==> (#[trigger] segs[i]).1 == segs[i + 1].0
}

/// The first segment holding grapheme `g`, or the last segment.
pub open spec fn segment_of(segs: Seq<(usize, usize)>, g: int, i: int) -> int
    decreases segs.len() - i,
{
    if i >= segs.len() {
        segs.len() - 1
    } else if segs[i].0 <= g < segs[i].1 {
        i
    } else {
        segment_of(segs, g, i + 1)
    }
}

/// The cursor's segment in wrap mode and its cell offset inside it.
pub open spec fn visual_position(line: Seq<char>, g: usize, cols: int) -> (usize, usize) {
    let segs = segments(line, cols);
    let i = segment_of(segs, g as int, 0);
    let start = segs[i].0 as int;
    let ws = line_widths(line);
    let end = if g as int <= ws.len() {
        g as int
    } else {
        ws.len() as int
    };
    (i as usize, capped(if g as int >= start { cells(ws, start, end) } else { 0 }))
}

proof fn lemma_segment_of_bound(segs: Seq<(usize, usize)>, g: int, i: int)
    requires
        segs.len() >= 1,
        0 <= i,
    ensures
        0 <= segment_of(segs, g, i) < segs.len(),
        i < segs.len() ==> i <= segment_of(segs, g, i),
    decreases segs.len() - i,
{
    if i < segs.len() && !(segs[i].0 <= g < segs[i].1) {
        lemma_segment_of_bound(segs, g, i + 1);
    }
}

proof fn lemma_cells_monotone(ws: Seq<int>, from: int, to: int)
    requires
        forall|i: int| 0 <= i < ws.len() ==> ws[i] >= 0,
        0 <= from,
        to <= ws.len(),
    ensures
        cells(ws, from, to) >= 0,
    decreases to - from,
{
    if to > from {
        lemma_cells_monotone(ws, from, to - 1);
    }
}

/// The sum of `widths[from..to]`, capped at `usize::MAX`.
fn sum_cells(widths: &Vec<usize>, from: usize, to: usize, ws: Ghost<Seq<int>>) -> (res: usize)
    requires
        from <= to <= widths@.len(),
        widths@.len() == ws@.len(),
        forall|i: int| 0 <= i < widths@.len() ==> widths@[i] as int == #[trigger] ws@[i],
    ensures
        res == capped(cells(ws@, from as int, to as int)),
{
    let mut total: usize = 0;
    let mut k: usize = from;
    while k < to
        invariant
            from <= k <= to,
            to <= widths@.len(),
            widths@.len() == ws@.len(),
            forall|i: int| 0 <= i < widths@.len() ==> widths@[i] as int == #[trigger] ws@[i],
            total == capped(cells(ws@, from as int, k as int)),
            cells(ws@, from as int, k as int) >= 0,
        decreases to - k,
    {
        total = total.saturating_add(widths[k]);
        k = k + 1;
    }
    total
}

/// Cursor position in wrap mode: the segment holding the cursor grapheme,
/// and its offset in cells inside that segment. A cursor at the very end of
/// the line belongs to the last segment.
pub fn cursor_visual_position(line: &str, cursor_grapheme: usize, cols: usize) -> (res: (usize, usize))
    ensures
        res == visual_position(line@, cursor_grapheme, cols as int),
{
    let segs = wrap_segments(line, cols);
    let ghost ss = segs@;
    let mut i: usize = 0;
    while i < segs.len() && !(segs[i].0 <= cursor_grapheme && cursor_grapheme < segs[i].1)
        invariant
            ss == segs@,
            ss.len() >= 1,
            i <= ss.len(),
            segment_of(ss, cursor_grapheme as int, 0) == segment_of(ss, cursor_grapheme as int, i as int),
        decreases ss.len() - i,
    {
        i = i + 1;
    }
    let index = if i < segs.len() {
        i
    } else {
        segs.len() - 1
    };
    proof {
        lemma_segment_of_bound(ss, cursor_grapheme as int, 0);
    }
    assert(index == segment_of(ss, cursor_grapheme as int, 0));
    let (start, _) = segs[index];
    let widths = widths_of(line);
    let ghost ws = line_widths(line@);
    let end = if cursor_grapheme <= widths.len() {
        cursor_grapheme
    } else {
        widths.len()
    };
    let x = if cursor_grapheme >= start && start <= end {
        sum_cells(&widths, start, end, Ghost(ws))
    } else {
        0
    };
    proof {
        if cursor_grapheme >= start && start > end {
            assert(cells(ws, start as int, end as int) == 0);
        }
    }
    (index, x)
}

/// The cell column of grapheme `target` of a line.
pub open spec fn display_col(line: Seq<char>, target: usize) -> usize {
    let ws = line_widths(line);
    capped(cells(ws, 0, if target as int <= ws.len() { target as int } else { ws.len() as int }))
}

/// The display column at which grapheme `target` starts.
pub fn display_col_for_grapheme(line: &str, target: usize) -> (res: usize)
    ensures
        res == display_col(line@, target),
{
    let widths = widths_of(line);
    let end = if target <= widths.len() {
        target
    } else {
        widths.len()
    };
    sum_cells(&widths, 0, end, Ghost(line_widths(line@)))
}

/// Whether grapheme `grapheme` of line `line` lies in the selected range.
pub fn is_selected(selection: Option<(Position, Position)>, line: usize, grapheme: usize) -> (res: bool)
    ensures
        res == match selection {
            Some((start, end)) => pos_le(start, Position { line, grapheme }) && pos_lt(
                Position { line, grapheme },
                end,
            ),
            None => false,
        },
{
    match selection {
        Some((start, end)) => {
            let p = Position::new(line, grapheme);
            precedes_or_equals(start, p) && precedes(p, end)
        },
        None => false,
    }
}

/// The text of line `i`, or nothing past the end of the buffer.
pub open spec fn line_text_at(v: BufferView, i: int) -> Seq<char> {
    if 0 <= i < v.lines.len() {
        decode_utf8(v.lines[i])
    } else {
        Seq::empty()
    }
}

pub(crate) fn line_or_empty(buffer: &TextBuffer, index: usize) -> (res: &str)
    requires
        buffer@.wf(),
    ensures
        res@ == line_text_at(buffer@, index as int),
{
    match buffer.line(index) {
        Some(text) => {
            proof {
                encode_utf8_decode_utf8(text@);
            }
            text
        },
        None => {
            let empty = "";
            proof {
                reveal_strlit("");
                assert(empty@ =~= Seq::<char>::empty());
            }
            empty
        },
    }
}

/// The gutter width for a buffer of `count` lines: the digits of the last
/// line number (at least three) and one space.
pub open spec fn gutter_spec(count: nat) -> int {
    let digits = decimal(if count >= 1 { count } else { 1 }).len() as int;
    (if digits >= 3 { digits } else { 3 }) + 1
}

/// The number of wrap segments of line `i`.
pub open spec fn segment_count(v: BufferView, i: int, cols: int) -> int {
    segments(line_text_at(v, i), cols).len() as int
}

/// One visual row down from `(line, segment)`.
pub open spec fn next_row(v: BufferView, cols: int, line: int, segment: int) -> (int, int) {
    if segment >= segment_count(v, line, cols) - 1 {
        (line + 1, 0)
    } else {
        (line, segment + 1)
    }
}

/// Lexicographic order of visual rows.
pub open spec fn row_lt(a: (int, int), b: (int, int)) -> bool {
    a.0 < b.0 || (a.0 == b.0 && a.1 < b.1)
}

/// Visual rows walked down from `at` toward `target`, stopping at the target
/// or after `rows` steps.
pub open spec fn rows_between(v: BufferView, cols: int, at: (int, int), target: (int, int), distance: int, rows: int) -> int
    decreases rows - distance,
{
    if row_lt(at, target) && distance < rows {
        rows_between(v, cols, next_row(v, cols, at.0, at.1), target, distance + 1, rows)
    } else {
        distance
    }
}

/// The visual row `remaining` rows above `at`, stopping at the first row of
/// the buffer.
pub open spec fn rows_back(v: BufferView, cols: int, at: (int, int), remaining: int) -> (int, int)
    decreases remaining,
{
    if remaining <= 0 {
        at
    } else if at.1 > 0 {
        let step = if at.1 < remaining {
            at.1
        } else {
            remaining
        };
        rows_back(v, cols, (at.0, at.1 - step), remaining - step)
    } else if at.0 == 0 {
        at
    } else {
        rows_back(v, cols, (at.0 - 1, segment_count(v, at.0 - 1, cols) - 1), remaining - 1)
    }
}

/// The viewport after following the cursor with wrap off: the cursor's line
/// inside `top_line..top_line + rows`, its column inside
/// `left_col..left_col + cols`.
pub open spec fn follow_spec(view: EditorView, e: EditorState, rows: usize, cols: usize) -> EditorView {
    if rows == 0 || cols == 0 {
        view
    } else {
        let line = e.cursor.line;
        let top = if line < view.top_line {
            line
        } else if line >= view.top_line + rows {
            (line + 1 - rows) as usize
        } else {
            view.top_line
        };
        let col = display_col(line_text_at(e.buffer, line as int), e.cursor.grapheme);
        let left = if col < view.left_col {
            col
        } else if col >= view.left_col + cols {
            (col + 1 - cols) as usize
        } else {
            view.left_col
        };
        EditorView { top_line: top, left_col: left, ..view }
    }
}

/// The viewport after following the cursor with wrap on, in visual rows: a
/// cursor above the window becomes its first row, one at least `rows` rows
/// below it becomes its last row.
pub open spec fn follow_wrapped_spec(view: EditorView, e: EditorState, rows: usize, cols: usize) -> EditorView {
    if rows == 0 || cols == 0 {
        view
    } else {
        let line = e.cursor.line as int;
        let seg = visual_position(line_text_at(e.buffer, line), e.cursor.grapheme, cols as int).0 as int;
        let top = (view.top_line as int, view.top_segment as int);
        if row_lt((line, seg), top) {
            EditorView { top_line: line as usize, top_segment: seg as usize, ..view }
        } else if rows_between(e.buffer, cols as int, top, (line, seg), 0, rows as int) < rows {
            view
        } else {
            let back = rows_back(e.buffer, cols as int, (line, seg), rows - 1);
            EditorView { top_line: back.0 as usize, top_segment: back.1 as usize, ..view }
        }
    }
}

/// Rows walked down from `at` to `target`, giving up past `u16::MAX`.
pub open spec fn rows_to(v: BufferView, cols: int, at: (int, int), target: (int, int), row: int) -> int
    decreases 0x10000 - row,
{
    if row_lt(at, target) && row < 0x10000 {
        rows_to(v, cols, next_row(v, cols, at.0, at.1), target, row + 1)
    } else {
        row
    }
}

impl EditorView {
    /// Width of the line-number gutter, including one trailing space.
    pub fn gutter_width(editor: &EditorCore) -> (res: usize)
        ensures
            res as int == gutter_spec(editor.buffer@.lines.len()),
    {
        let count = editor.buffer.line_count();
        let n = if count >= 1 {
            count
        } else {
            1
        };
        let digits = decimal_string(n).as_str().unicode_len();
        proof {
            lemma_decimal_len(n as nat);
        }
        (if digits >= 3 {
            digits
        } else {
            3
        }) + 1
    }

    /// Scrolls so the cursor is visible with wrap off.
    pub fn ensure_cursor_visible(&mut self, editor: &EditorCore, rows: usize, cols: usize)
        requires
            editor@.wf(),
        ensures
            *final(self) == follow_spec(*old(self), editor@, rows, cols),
    {
        if rows == 0 || cols == 0 {
            return;
        }
        let line = editor.cursor.line;
        if line < self.top_line {
            self.top_line = line;
        } else if line - self.top_line >= rows {
            self.top_line = line - (rows - 1);
        }
        let col = display_col_for_grapheme(line_or_empty(&editor.buffer, line), editor.cursor.grapheme);
        if col < self.left_col {
            self.left_col = col;
        } else if col - self.left_col >= cols {
            self.left_col = col - (cols - 1);
        }
    }

    /// Scrolls in visual rows so the cursor is visible with wrap on.
    pub fn ensure_cursor_visible_wrapped(&mut self, editor: &EditorCore, rows: usize, cols: usize)
        requires
            editor@.wf(),
        ensures
            *final(self) == follow_wrapped_spec(*old(self), editor@, rows, cols),
    {
        if rows == 0 || cols == 0 {
            return;
        }
        let ghost v = editor.buffer@;
        let cursor_line = editor.cursor.line;
        let line = line_or_empty(&editor.buffer, cursor_line);
        let (cursor_segment, _) = cursor_visual_position(line, editor.cursor.grapheme, cols);
        if cursor_line < self.top_line || (cursor_line == self.top_line && cursor_segment < self.top_segment) {
            self.top_line = cursor_line;
            self.top_segment = cursor_segment;
            return;
        }
        proof {
            lemma_visual_segment_bound(line@, editor.cursor.grapheme, cols as int);
        }
        let ghost target = (cursor_line as int, cursor_segment as int);
        let mut distance: usize = 0;
        let mut line_index = self.top_line;
        let mut segment_index = self.top_segment;
        while (line_index < cursor_line || (line_index == cursor_line && segment_index < cursor_segment))
            && distance < rows
            invariant
                v == editor.buffer@,
                v.wf(),
                cols > 0,
                distance <= rows,
                target == (cursor_line as int, cursor_segment as int),
                (cursor_segment as int) < segment_count(v, cursor_line as int, cols as int),
                line_index < cursor_line || (line_index == cursor_line && segment_index <= cursor_segment),
                rows_between(v, cols as int, (line_index as int, segment_index as int), target, distance as int, rows as int)
                    == rows_between(v, cols as int, (self.top_line as int, self.top_segment as int), target, 0, rows as int),
            decreases rows - distance,
        {
            let count = wrap_segments(line_or_empty(&editor.buffer, line_index), cols).len();
            assert(count as int == segment_count(v, line_index as int, cols as int));
            assert(rows_between(v, cols as int, (line_index as int, segment_index as int), target, distance as int, rows as int)
                == rows_between(v, cols as int, next_row(v, cols as int, line_index as int, segment_index as int), target, distance + 1, rows as int));
            if segment_index >= count - 1 {
                line_index = line_index + 1;
                segment_index = 0;
            } else {
                segment_index = segment_index + 1;
            }
            distance = distance + 1;
        }
        if distance < rows {
            return;
        }
        let mut remaining = rows - 1;
        let mut line_index = cursor_line;
        let mut segment_index = cursor_segment;
        while remaining > 0 && (segment_index > 0 || line_index > 0)
            invariant
                v == editor.buffer@,
                v.wf(),
                target == (cursor_line as int, cursor_segment as int),
                rows_back(v, cols as int, (line_index as int, segment_index as int), remaining as int)
                    == rows_back(v, cols as int, target, rows - 1),
            decreases remaining,
        {
            if segment_index > 0 {
                let step = if segment_index < remaining {
                    segment_index
                } else {
                    remaining
                };
                segment_index = segment_index - step;
                remaining = remaining - step;
            } else {
                line_index = line_index - 1;
                let count = wrap_segments(line_or_empty(&editor.buffer, line_index), cols).len();
                assert(count as int == segment_count(v, line_index as int, cols as int));
                segment_index = count - 1;
                remaining = remaining - 1;
            }
        }
        self.top_line = line_index;
        self.top_segment = segment_index;
    }

    /// The cursor's cell on screen with wrap off, or nothing when its line
    /// does not exist.
    pub fn cursor_screen_position(&self, editor: &EditorCore) -> (res: Option<(u16, u16)>)
        requires
            editor@.wf(),
        ensures
            editor.cursor.line >= editor.buffer@.lines.len() ==> res is None,
            editor.cursor.line < editor.buffer@.lines.len() ==> res == Some((
                #[verifier::truncate] ((gutter_spec(editor.buffer@.lines.len()) + sat_diff(
                    display_col(line_text_at(editor.buffer@, editor.cursor.line as int), editor.cursor.grapheme) as int,
                    self.left_col as int,
                )) as u16),
                #[verifier::truncate] (sat_diff(editor.cursor.line as int, self.top_line as int) as u16),
            )),
    {
        if editor.cursor.line >= editor.buffer.line_count() {
            return None;
        }
        let line = line_or_empty(&editor.buffer, editor.cursor.line);
        let col = display_col_for_grapheme(line, editor.cursor.grapheme);
        let x = Self::gutter_width(editor) as u128 + col.saturating_sub(self.left_col) as u128;
        Some((#[verifier::truncate] (x as u16), #[verifier::truncate] (editor.cursor.line.saturating_sub(self.top_line) as u16)))
    }

    /// The cursor's cell on screen with wrap on: nothing when its line does
    /// not exist, when it is above the window, or when it is more than
    /// `u16::MAX` rows below the window's top.
    pub fn cursor_screen_position_wrapped(&self, editor: &EditorCore, cols: usize) -> (res: Option<(u16, u16)>)
        requires
            editor@.wf(),
        ensures
            ({
                let v = editor.buffer@;
                let line = editor.cursor.line as int;
                let vp = visual_position(line_text_at(v, line), editor.cursor.grapheme, cols as int);
                let target = (line, vp.0 as int);
                let top = (self.top_line as int, self.top_segment as int);
                let row = rows_to(v, cols as int, top, target, 0);
                if line >= v.lines.len() || row_lt(target, top) || row > u16::MAX {
                    res is None
                } else {
                    res == Some((#[verifier::truncate] ((gutter_spec(v.lines.len()) + vp.1) as u16), row as u16))
                }
            }),
    {
        if editor.cursor.line >= editor.buffer.line_count() {
            return None;
        }
        let ghost v = editor.buffer@;
        let line = line_or_empty(&editor.buffer, editor.cursor.line);
        let (cursor_segment, x) = cursor_visual_position(line, editor.cursor.grapheme, cols);
        let cursor_line = editor.cursor.line;
        if cursor_line < self.top_line || (cursor_line == self.top_line && cursor_segment < self.top_segment) {
            return None;
        }
        proof {
            lemma_visual_segment_bound(line@, editor.cursor.grapheme, cols as int);
        }
        let ghost target = (cursor_line as int, cursor_segment as int);
        let mut row: usize = 0;
        let mut line_index = self.top_line;
        let mut segment_index = self.top_segment;
        while (line_index < cursor_line || (line_index == cursor_line && segment_index < cursor_segment))
            && row < 0x10000
            invariant
                v == editor.buffer@,
                v.wf(),
                row <= 0x10000,
                target == (cursor_line as int, cursor_segment as int),
                (cursor_segment as int) < segment_count(v, cursor_line as int, cols as int),
                line_index < cursor_line || (line_index == cursor_line && segment_index <= cursor_segment),
                rows_to(v, cols as int, (line_index as int, segment_index as int), target, row as int)
                    == rows_to(v, cols as int, (self.top_line as int, self.top_segment as int), target, 0),
            decreases 0x10000 - row,
        {
            let count = wrap_segments(line_or_empty(&editor.buffer, line_index), cols).len();
            assert(count as int == segment_count(v, line_index as int, cols as int));
            assert(rows_to(v, cols as int, (line_index as int, segment_index as int), target, row as int)
                == rows_to(v, cols as int, next_row(v, cols as int, line_index as int, segment_index as int), target, row + 1));
            if segment_index >= count - 1 {
                line_index = line_index + 1;
                segment_index = 0;
            } else {
                segment_index = segment_index + 1;
            }
            row = row + 1;
        }
        if row > 0xffff {
            return None;
        }
        let x = Self::gutter_width(editor) as u128 + x as u128;
        Some((#[verifier::truncate] (x as u16), row as u16))
    }
}

/// Decimal notation has at most as many digits as the number has decimal places.
proof fn lemma_decimal_len(n: nat)
    ensures
        decimal(n).len() >= 1,
        n >= 1 ==> decimal(n).len() <= n,
        n >= 10 ==> decimal(n).len() < n,
    decreases n,
{
    if n >= 10 {
        lemma_decimal_len(n / 10);
    }
}

/// The cursor's segment is one of the line's segments.
proof fn lemma_visual_segment_bound(line: Seq<char>, g: usize, cols: int)
    ensures
        visual_position(line, g, cols).0 < segments(line, cols).len(),
{
    let segs = segments(line, cols);
    lemma_segment_of_bound(segs, g as int, 0);
}

} // verus!
