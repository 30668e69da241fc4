//! What the editor area draws: the line-number gutter, the visible text
//! (with the selection reversed, tabs as four spaces), the `…` markers where
//! a line is cut with wrap off, the status bar, and where the cursor goes.
//! Syntax colors are not part of it.

use vstd::prelude::*;
use vstd::string::*;

use crate::model::buffer::{strings_view, BufferView};
use crate::model::editor::{EditorCore, EditorState};
use crate::model::position::{pos_le, pos_lt, Position};
use crate::model::selection::sel_range;
use crate::overlay::palette_box::{drawn, repeated, DrawnText, TextStyle};
use crate::text::{decimal, decimal_string, grapheme_strings, push_char, text_clusters};
use crate::view::{
    cell_width, display_col, line_widths, follow_spec, follow_wrapped_spec, grapheme_display_width, gutter_spec, is_selected, is_tab,
    line_or_empty, line_text_at, row_lt, rows_to, sat_diff, segments, visual_position, wrap_segments, EditorView,
    StatusLine,
};

verus! {

broadcast use {vstd::seq::group_seq_axioms, vstd::seq_lib::group_seq_properties};

/// A grapheme as drawn: a tab as four spaces.
pub open spec fn expanded(g: Seq<char>) -> Seq<char> {
    if g == seq!['\t'] {
        "    "@
    } else {
        g
    }
}

/// `a + b`, or `usize::MAX` past it.
pub open spec fn sat_sum(a: int, b: int) -> int {
    if a + b > usize::MAX {
        usize::MAX as int
    } else {
        a + b
    }
}

/// How grapheme `k` of line `line` is drawn: reversed when selected.
pub open spec fn grapheme_style(selection: Option<(Position, Position)>, line: usize, k: int) -> TextStyle {
    let p = Position { line, grapheme: k as usize };
    if (match selection {
        Some((start, end)) => pos_le(start, p) && pos_lt(p, end),
        None => false,
    }) {
        TextStyle::Reverse
    } else {
        TextStyle::Normal
    }
}

/// The graphemes of a line from `k` on, with wrap off: `dc` is the display
/// column reached, `left` the first visible column, `ox` the screen column
/// of the text area, `width` the screen's width. A grapheme is drawn once it
/// ends past `left`; drawing stops once the screen's edge is reached.
#[verifier::opaque]
pub open spec fn line_cmds(
    gs: Seq<Seq<char>>,
    k: int,
    dc: int,
    left: int,
    ox: int,
    y: u16,
    width: int,
    line: usize,
    selection: Option<(Position, Position)>,
) -> Seq<DrawnText>
    decreases gs.len() - k,
{
    if k < 0 || k >= gs.len() {
        Seq::empty()
    } else {
        let next = sat_sum(dc, cell_width(gs[k]));
        let cmd: Seq<DrawnText> = if next > left {
            seq![(#[verifier::truncate] ((ox + sat_diff(dc, left)) as u16), y, expanded(gs[k]), grapheme_style(selection, line, k))]
        } else {
            Seq::empty()
        };
        if ox + sat_diff(next, left) >= width {
            cmd
        } else {
            cmd + line_cmds(gs, k + 1, next, left, ox, y, width, line, selection)
        }
    }
}

/// The graphemes `k..end` of a line drawn from screen column `x` on, with
/// wrap on, until the screen's edge.
#[verifier::opaque]
pub open spec fn segment_cmds(
    gs: Seq<Seq<char>>,
    k: int,
    end: int,
    x: int,
    y: u16,
    width: int,
    line: usize,
    selection: Option<(Position, Position)>,
) -> Seq<DrawnText>
    decreases gs.len() - k,
{
    if k < 0 || k >= end || k >= gs.len() {
        Seq::empty()
    } else {
        let cmd = seq![(#[verifier::truncate] (x as u16), y, expanded(gs[k]), grapheme_style(selection, line, k))];
        let x2 = sat_sum(x, cell_width(gs[k]));
        if x2 >= width {
            cmd
        } else {
            cmd + segment_cmds(gs, k + 1, end, x2, y, width, line, selection)
        }
    }
}

/// Draws the graphemes of `line` with wrap off (see [`line_cmds`]).
fn push_line(
    out: &mut Vec<(u16, u16, String, TextStyle)>,
    line: &str,
    line_index: usize,
    y: u16,
    ox: usize,
    left: usize,
    width: usize,
    selection: Option<(Position, Position)>,
)
    ensures
        drawn(final(out)@) == drawn(old(out)@) + line_cmds(
            text_clusters(line@),
            0,
            0,
            left as int,
            ox as int,
            y,
            width as int,
            line_index,
            selection,
        ),
{
    proof {
        reveal(line_cmds);
    }
    let graphemes = grapheme_strings(line);
    let ghost gs = strings_view(graphemes@);
    let ghost start = drawn(out@);
    let mut k: usize = 0;
    let mut dc: usize = 0;
    assert forall|d: int| #[trigger] line_cmds(gs, gs.len() as int, d, left as int, ox as int, y, width as int, line_index, selection)
        == Seq::<DrawnText>::empty() by {}
    while k < graphemes.len()
        invariant_except_break
            drawn(out@) + line_cmds(gs, k as int, dc as int, left as int, ox as int, y, width as int, line_index, selection)
                == start + line_cmds(gs, 0, 0, left as int, ox as int, y, width as int, line_index, selection),
        invariant
            gs == strings_view(graphemes@),
            gs == text_clusters(line@),
            k <= gs.len(),
            forall|d: int| #[trigger] line_cmds(gs, gs.len() as int, d, left as int, ox as int, y, width as int, line_index, selection)
                == Seq::<DrawnText>::empty(),
        ensures
            drawn(out@) == start + line_cmds(gs, 0, 0, left as int, ox as int, y, width as int, line_index, selection),
        decreases gs.len() - k,
    {
        proof {
            reveal(line_cmds);
        }
        let g = graphemes[k].as_str();
        assert(g@ == gs[k as int]);
        let w = grapheme_display_width(g);
        let next = dc.saturating_add(w);
        let ghost before = drawn(out@);
        let ghost rest = line_cmds(gs, k as int, dc as int, left as int, ox as int, y, width as int, line_index, selection);
        let ghost cmd: Seq<DrawnText> = if next > left {
            seq![(#[verifier::truncate] ((ox + sat_diff(dc as int, left as int)) as u16), y, expanded(gs[k as int]), grapheme_style(selection, line_index, k as int))]
        } else {
            Seq::empty()
        };
        if next > left {
            let x: u128 = ox as u128 + (if dc > left { dc - left } else { 0 }) as u128;
            let text = if is_tab(g) {
                "    ".to_owned()
            } else {
                g.to_owned()
            };
            let style = if is_selected(selection, line_index, k) {
                TextStyle::Reverse
            } else {
                TextStyle::Normal
            };
            let ghost b = out@;
            let ghost item = (#[verifier::truncate] (x as u16), y, text@, style);
            out.push((#[verifier::truncate] (x as u16), y, text, style));
            assert(drawn(out@) =~= drawn(b).push(item));
            assert(seq![item] =~= cmd);
        }
        assert(drawn(out@) =~= before + cmd);
        let edge: u128 = ox as u128 + (if next > left { next - left } else { 0 }) as u128;
        if edge >= width as u128 {
            assert(rest == cmd);
            break;
        }
        assert(rest == cmd + line_cmds(gs, k + 1, next as int, left as int, ox as int, y, width as int, line_index, selection));
        k = k + 1;
        dc = next;
    }
}

/// Draws graphemes `start..end` of `line` from screen column `ox` (see
/// [`segment_cmds`]).
fn push_segment(
    out: &mut Vec<(u16, u16, String, TextStyle)>,
    line: &str,
    line_index: usize,
    y: u16,
    ox: usize,
    start: usize,
    end: usize,
    width: usize,
    selection: Option<(Position, Position)>,
)
    ensures
        drawn(final(out)@) == drawn(old(out)@) + segment_cmds(
            text_clusters(line@),
            start as int,
            end as int,
            ox as int,
            y,
            width as int,
            line_index,
            selection,
        ),
{
    proof {
        reveal(segment_cmds);
    }
    let graphemes = grapheme_strings(line);
    let ghost gs = strings_view(graphemes@);
    let ghost first = drawn(out@);
    let mut k: usize = start;
    let mut x: usize = ox;
    assert forall|kk: int, xx: int| (kk >= end || kk >= gs.len()) implies #[trigger] segment_cmds(gs, kk, end as int, xx, y, width as int, line_index, selection)
        == Seq::<DrawnText>::empty() by {}
    while k < end && k < graphemes.len()
        invariant_except_break
            drawn(out@) + segment_cmds(gs, k as int, end as int, x as int, y, width as int, line_index, selection)
                == first + segment_cmds(gs, start as int, end as int, ox as int, y, width as int, line_index, selection),
        invariant
            gs == strings_view(graphemes@),
            gs == text_clusters(line@),
            start <= k,
            forall|kk: int, xx: int| (kk >= end || kk >= gs.len()) ==> #[trigger] segment_cmds(gs, kk, end as int, xx, y, width as int, line_index, selection)
                == Seq::<DrawnText>::empty(),
        ensures
            drawn(out@) == first + segment_cmds(gs, start as int, end as int, ox as int, y, width as int, line_index, selection),
        decreases gs.len() - k,
    {
        proof {
            reveal(segment_cmds);
        }
        let g = graphemes[k].as_str();
        assert(g@ == gs[k as int]);
        let ghost before = drawn(out@);
        let ghost rest = segment_cmds(gs, k as int, end as int, x as int, y, width as int, line_index, selection);
        let text = if is_tab(g) {
            "    ".to_owned()
        } else {
            g.to_owned()
        };
        let style = if is_selected(selection, line_index, k) {
            TextStyle::Reverse
        } else {
            TextStyle::Normal
        };
        let ghost item = (#[verifier::truncate] (x as u16), y, text@, style);
        let ghost b = out@;
        out.push((#[verifier::truncate] (x as u16), y, text, style));
        assert(drawn(out@) =~= drawn(b).push(item));
        assert(drawn(out@) =~= before + seq![item]);
        let x2 = x.saturating_add(grapheme_display_width(g));
        if x2 >= width {
            assert(rest == seq![item]);
            break;
        }
        assert(rest == seq![item] + segment_cmds(gs, k + 1, end as int, x2 as int, y, width as int, line_index, selection));
        k = k + 1;
        x = x2;
    }
}

/// The gutter for line `line` (0-based): its number right-aligned in
/// `gutter - 1` columns, then a space.
pub open spec fn gutter_text(line: nat, gutter: nat) -> Seq<char> {
    let n = decimal(line + 1);
    let w = if gutter >= 1 {
        (gutter - 1) as nat
    } else {
        0
    };
    (if n.len() < w {
        repeated(' ', (w - n.len()) as nat)
    } else {
        Seq::empty()
    }) + n + seq![' ']
}

/// The gutter text (see [`gutter_text`]).
fn gutter_string(line: usize, gutter: usize) -> (res: String)
    requires
        line < usize::MAX,
    ensures
        res@ == gutter_text(line as nat, gutter as nat),
{
    let n = decimal_string(line + 1);
    let len = n.as_str().unicode_len();
    let w = if gutter >= 1 {
        gutter - 1
    } else {
        0
    };
    let mut s = String::new();
    if len < w {
        let mut i: usize = 0;
        while i < w - len
            invariant
                i <= w - len,
                s@ == repeated(' ', i as nat),
            decreases w - len - i,
        {
            push_char(&mut s, ' ');
            i = i + 1;
            assert(s@ =~= repeated(' ', i as nat));
        }
    }
    s.append(n.as_str());
    push_char(&mut s, ' ');
    assert(s@ =~= gutter_text(line as nat, gutter as nat));
    s
}

/// The sum of `ws`.
pub open spec fn width_sum(ws: Seq<int>) -> int
    decreases ws.len(),
{
    if ws.len() == 0 {
        0
    } else {
        width_sum(ws.drop_last()) + ws.last()
    }
}

/// The `…` markers of a line `line_width` wide with wrap off: at the
/// screen's right edge when it continues past the visible columns, and at
/// the text's left edge while scrolled sideways.
pub open spec fn marker_cmds(line_width: int, left: int, cols: int, width: int, gutter: int, y: u16) -> Seq<DrawnText> {
    (if line_width > left + cols && width > 0 {
        seq![((width - 1) as u16, y, "…"@, TextStyle::Dim)]
    } else {
        Seq::empty()
    }) + if left > 0 && line_width > 0 {
        seq![(#[verifier::truncate] (gutter as u16), y, "…"@, TextStyle::Dim)]
    } else {
        Seq::empty()
    }
}

/// A running sum of `k + 1` values of at most `usize::MAX` fits in `u128`.
proof fn lemma_sum_bound(total: int, w: int, k: int)
    by (nonlinear_arith)
    requires
        0 <= total <= k * (usize::MAX as int),
        0 <= w <= usize::MAX,
        0 <= k < usize::MAX,
    ensures
        total + w <= (k + 1) * (usize::MAX as int),
        (k + 1) * (usize::MAX as int) <= u128::MAX,
{
}

/// The cells a line takes with wrap off.
fn line_width(line: &str) -> (res: u128)
    ensures
        res == width_sum(line_widths(line@)),
{
    let graphemes = grapheme_strings(line);
    let ghost gs = strings_view(graphemes@);
    let ghost ws = line_widths(line@);
    let mut total: u128 = 0;
    let mut k: usize = 0;
    assert(ws.take(0) =~= Seq::<int>::empty());
    while k < graphemes.len()
        invariant
            gs == strings_view(graphemes@),
            gs == text_clusters(line@),
            ws == line_widths(line@),
            ws.len() == gs.len(),
            k <= gs.len(),
            total == width_sum(ws.take(k as int)),
            total <= k * (usize::MAX as int),
        decreases gs.len() - k,
    {
        let w = grapheme_display_width(graphemes[k].as_str());
        assert(graphemes@[k as int]@ == gs[k as int]);
        assert(ws.take(k + 1).drop_last() =~= ws.take(k as int));
        proof {
            lemma_sum_bound(total as int, w as int, k as int);
        }
        total = total + w as u128;
        k = k + 1;
    }
    assert(ws.take(gs.len() as int) =~= ws);
    total
}

/// The rows of the editor area with wrap off: row `r` shows line
/// `top_line + r` (when there is one) with its gutter, its text from column
/// `left_col`, and its markers.
pub open spec fn unwrapped_row(
    v: BufferView,
    view: EditorView,
    row: int,
    origin_y: u16,
    gutter: int,
    width: int,
    cols: int,
    selection: Option<(Position, Position)>,
) -> Seq<DrawnText> {
    let i = view.top_line + row;
    if i < v.lines.len() {
        let y = (origin_y + row) as u16;
        let text = line_text_at(v, i);
        seq![(0u16, y, gutter_text(i as nat, gutter as nat), TextStyle::Dim)] + line_cmds(
            text_clusters(text),
            0,
            0,
            view.left_col as int,
            gutter,
            y,
            width,
            i as usize,
            selection,
        ) + marker_cmds(width_sum(line_widths(text)), view.left_col as int, cols, width, gutter, y)
    } else {
        Seq::empty()
    }
}

/// The first `n` rows with wrap off.
pub open spec fn unwrapped_rows(
    v: BufferView,
    view: EditorView,
    n: int,
    origin_y: u16,
    gutter: int,
    width: int,
    cols: int,
    selection: Option<(Position, Position)>,
) -> Seq<DrawnText>
    decreases n,
{
    if n <= 0 {
        Seq::empty()
    } else {
        unwrapped_rows(v, view, n - 1, origin_y, gutter, width, cols, selection) + unwrapped_row(
            v,
            view,
            n - 1,
            origin_y,
            gutter,
            width,
            cols,
            selection,
        )
    }
}

/// The rows with wrap on from screen row `row`, at wrap segment `seg` of
/// line `line`: each segment on its own row, the gutter on a line's first
/// segment only, until the rows or the lines run out.
#[verifier::opaque]
pub open spec fn wrapped_from(
    v: BufferView,
    rows: int,
    row: int,
    line: int,
    seg: int,
    origin_y: u16,
    gutter: int,
    width: int,
    cols: int,
    selection: Option<(Position, Position)>,
) -> Seq<DrawnText>
    decreases rows - row, v.lines.len() - line,
{
    if row >= rows || line < 0 || line >= v.lines.len() || seg < 0 {
        Seq::empty()
    } else {
        let text = line_text_at(v, line);
        let segs = segments(text, cols);
        if seg < segs.len() {
            let y = (origin_y + row) as u16;
            (if seg == 0 {
                seq![(0u16, y, gutter_text(line as nat, gutter as nat), TextStyle::Dim)]
            } else {
                Seq::empty()
            }) + segment_cmds(
                text_clusters(text),
                segs[seg].0 as int,
                segs[seg].1 as int,
                gutter,
                y,
                width,
                line as usize,
                selection,
            ) + wrapped_from(v, rows, row + 1, line, seg + 1, origin_y, gutter, width, cols, selection)
        } else {
            wrapped_from(v, rows, row, line + 1, 0, origin_y, gutter, width, cols, selection)
        }
    }
}

/// The status bar text: the file name, `[+]` when modified, the cursor's
/// 1-based line and column, the message and the pending keys.
pub open spec fn status_text(s: StatusLine, e: EditorState) -> Seq<char> {
    s.filename@ + (if s.modified {
        " [+]"@
    } else {
        Seq::empty()
    }) + " | Ln "@ + decimal((e.cursor.line + 1) as nat) + ",Col "@ + decimal((e.cursor.grapheme + 1) as nat) + " | "@
        + s.message@ + " | "@ + s.pending@
}

/// The cursor's cell with wrap off (as `EditorView::cursor_screen_position`
/// gives it).
pub open spec fn cursor_cell(view: EditorView, e: EditorState) -> Option<(u16, u16)> {
    if e.cursor.line >= e.buffer.lines.len() {
        None
    } else {
        Some((
            #[verifier::truncate] ((gutter_spec(e.buffer.lines.len()) + sat_diff(
                display_col(line_text_at(e.buffer, e.cursor.line as int), e.cursor.grapheme) as int,
                view.left_col as int,
            )) as u16),
            #[verifier::truncate] (sat_diff(e.cursor.line as int, view.top_line as int) as u16),
        ))
    }
}

/// The cursor's cell with wrap on (as
/// `EditorView::cursor_screen_position_wrapped` gives it).
pub open spec fn cursor_cell_wrapped(view: EditorView, e: EditorState, cols: usize) -> Option<(u16, u16)> {
    let v = e.buffer;
    let line = e.cursor.line as int;
    let vp = visual_position(line_text_at(v, line), e.cursor.grapheme, cols as int);
    let target = (line, vp.0 as int);
    let top = (view.top_line as int, view.top_segment as int);
    let row = rows_to(v, cols as int, top, target, 0);
    if line >= v.lines.len() || row_lt(target, top) || row > u16::MAX {
        None
    } else {
        Some((#[verifier::truncate] ((gutter_spec(v.lines.len()) + vp.1) as u16), row as u16))
    }
}

/// The cursor on screen: its cell below `origin_y`, when it is inside the
/// screen and above the status bar.
pub open spec fn placed_cursor(c: Option<(u16, u16)>, width: u16, height: u16, origin_y: u16) -> Option<(u16, u16)> {
    match c {
        Some((x, y)) => if x < width && origin_y + y < sat_diff(height as int, 1) {
            Some((x, (origin_y + y) as u16))
        } else {
            None
        },
        None => None,
    }
}

/// The editor area's rows on a `height`-row screen below `origin_y`, and its
/// columns right of the gutter.
pub open spec fn area(e: EditorState, width: u16, height: u16, origin_y: u16) -> (usize, usize) {
    (
        sat_diff(height as int, origin_y + 1) as usize,
        sat_diff(width as int, gutter_spec(e.buffer.lines.len())) as usize,
    )
}

/// The viewport after drawing: scrolled so the cursor shows, with no
/// sideways scroll when wrapping and no segment offset when not.
pub open spec fn view_after(view: EditorView, e: EditorState, width: u16, height: u16, origin_y: u16, wrap: bool) -> EditorView {
    let (rows, cols) = area(e, width, height, origin_y);
    if wrap {
        follow_wrapped_spec(EditorView { left_col: 0, ..view }, e, rows, cols)
    } else {
        follow_spec(EditorView { top_segment: 0, ..view }, e, rows, cols)
    }
}

/// The selection's range, start first.
pub open spec fn selection_range(e: EditorState) -> Option<(Position, Position)> {
    match e.selection {
        Some(s) => Some(sel_range(s)),
        None => None,
    }
}

/// Everything the editor area draws with the viewport `view` (already
/// scrolled), and where the cursor goes: the rows, then the status bar in
/// reverse on the last screen row.
pub open spec fn draw_spec(
    view: EditorView,
    e: EditorState,
    width: u16,
    height: u16,
    origin_y: u16,
    wrap: bool,
    status: StatusLine,
) -> (Seq<DrawnText>, Option<(u16, u16)>) {
    let (rows, cols) = area(e, width, height, origin_y);
    let gutter = gutter_spec(e.buffer.lines.len());
    let sel = selection_range(e);
    let body = if wrap {
        wrapped_from(e.buffer, rows as int, 0, view.top_line as int, view.top_segment as int, origin_y, gutter, width as int, cols as int, sel)
    } else {
        unwrapped_rows(e.buffer, view, rows as int, origin_y, gutter, width as int, cols as int, sel)
    };
    let bar: Seq<DrawnText> = if height > 0 {
        seq![(0u16, (height - 1) as u16, status_text(status, e), TextStyle::Reverse)]
    } else {
        Seq::empty()
    };
    (
        body + bar,
        placed_cursor(
            if wrap {
                cursor_cell_wrapped(view, e, cols)
            } else {
                cursor_cell(view, e)
            },
            width,
            height,
            origin_y,
        ),
    )
}

impl EditorView {
    /// Draws row `r` with wrap off (see [`unwrapped_row`]).
    fn push_unwrapped_row(
        &self,
        out: &mut Vec<(u16, u16, String, TextStyle)>,
        editor: &EditorCore,
        r: usize,
        origin_y: u16,
        gutter: usize,
        width: usize,
        cols: usize,
        selection: Option<(Position, Position)>,
    )
        requires
            editor@.wf(),
            origin_y + r < u16::MAX,
        ensures
            drawn(final(out)@) == drawn(old(out)@) + unwrapped_row(
                editor.buffer@,
                *self,
                r as int,
                origin_y,
                gutter as int,
                width as int,
                cols as int,
                selection,
            ),
    {
        let ghost v = editor.buffer@;
        let n = editor.buffer.line_count();
        let ghost before = drawn(out@);
        if r <= usize::MAX - self.top_line && self.top_line + r < n {
            let i = self.top_line + r;
            let y = origin_y + r as u16;
            let text = line_or_empty(&editor.buffer, i);
            let g = gutter_string(i, gutter);
            let ghost gv = g@;
            out.push((0u16, y, g, TextStyle::Dim));
            assert(drawn(out@) =~= before.push((0u16, y, gv, TextStyle::Dim)));
            push_line(out, text, i, y, gutter, self.left_col, width, selection);
            let lw = line_width(text);
            let ghost mid = drawn(out@);
            if lw > self.left_col as u128 + cols as u128 && width > 0 {
                let ghost b = out@;
                out.push(((width - 1) as u16, y, "…".to_owned(), TextStyle::Dim));
                assert(drawn(out@) =~= drawn(b).push(((width - 1) as u16, y, "…"@, TextStyle::Dim)));
            }
            if self.left_col > 0 && lw > 0 {
                let ghost b = out@;
                out.push((#[verifier::truncate] (gutter as u16), y, "…".to_owned(), TextStyle::Dim));
                assert(drawn(out@) =~= drawn(b).push((#[verifier::truncate] (gutter as u16), y, "…"@, TextStyle::Dim)));
            }
            assert(drawn(out@) =~= mid + marker_cmds(lw as int, self.left_col as int, cols as int, width as int, gutter as int, y));
            assert(drawn(out@) =~= before + unwrapped_row(v, *self, r as int, origin_y, gutter as int, width as int, cols as int, selection));
        } else {
            assert(unwrapped_row(v, *self, r as int, origin_y, gutter as int, width as int, cols as int, selection) =~= Seq::<DrawnText>::empty());
        }
    }

    /// Draws the rows with wrap off (see [`unwrapped_rows`]).
    #[verifier::rlimit(30)]
    fn push_unwrapped(
        &self,
        out: &mut Vec<(u16, u16, String, TextStyle)>,
        editor: &EditorCore,
        rows: usize,
        origin_y: u16,
        gutter: usize,
        width: usize,
        cols: usize,
        selection: Option<(Position, Position)>,
    )
        requires
            editor@.wf(),
            origin_y + rows <= u16::MAX,
        ensures
            drawn(final(out)@) == drawn(old(out)@) + unwrapped_rows(
                editor.buffer@,
                *self,
                rows as int,
                origin_y,
                gutter as int,
                width as int,
                cols as int,
                selection,
            ),
    {
        let ghost v = editor.buffer@;
        let ghost start = drawn(out@);
        let n = editor.buffer.line_count();
        let mut r: usize = 0;
        while r < rows
            invariant
                r <= rows,
                origin_y + rows <= u16::MAX,
                editor@.wf(),
                v == editor.buffer@,
                n == v.lines.len(),
                drawn(out@) == start + unwrapped_rows(v, *self, r as int, origin_y, gutter as int, width as int, cols as int, selection),
            decreases rows - r,
        {
            self.push_unwrapped_row(out, editor, r, origin_y, gutter, width, cols, selection);
            r = r + 1;
        }
    }

    /// Draws the rows with wrap on (see [`wrapped_from`]).
    fn push_wrapped(
        &self,
        out: &mut Vec<(u16, u16, String, TextStyle)>,
        editor: &EditorCore,
        rows: usize,
        origin_y: u16,
        gutter: usize,
        width: usize,
        cols: usize,
        selection: Option<(Position, Position)>,
    )
        requires
            editor@.wf(),
            origin_y + rows <= u16::MAX,
        ensures
            drawn(final(out)@) == drawn(old(out)@) + wrapped_from(
                editor.buffer@,
                rows as int,
                0,
                self.top_line as int,
                self.top_segment as int,
                origin_y,
                gutter as int,
                width as int,
                cols as int,
                selection,
            ),
    {
        let ghost v = editor.buffer@;
        let ghost g = gutter as int;
        let ghost wd = width as int;
        let ghost cl = cols as int;
        let ghost whole = drawn(out@) + wrapped_from(v, rows as int, 0, self.top_line as int, self.top_segment as int, origin_y, g, wd, cl, selection);
        let n = editor.buffer.line_count();
        let mut row: usize = 0;
        let mut line: usize = self.top_line;
        let mut seg: usize = self.top_segment;
        proof {
            reveal(wrapped_from);
        }
        assert forall|r: int, l: int, sg: int| (r >= rows || l >= n) implies #[trigger] wrapped_from(v, rows as int, r, l, sg, origin_y, g, wd, cl, selection)
            == Seq::<DrawnText>::empty() by {
            reveal(wrapped_from);
        }
        while row < rows && line < n
            invariant
                row <= rows,
                origin_y + rows <= u16::MAX,
                editor@.wf(),
                v == editor.buffer@,
                n == v.lines.len(),
                g == gutter as int,
                wd == width as int,
                cl == cols as int,
                forall|r: int, l: int, sg: int| (r >= rows || l >= n) ==> #[trigger] wrapped_from(v, rows as int, r, l, sg, origin_y, g, wd, cl, selection)
                    == Seq::<DrawnText>::empty(),
                drawn(out@) + wrapped_from(v, rows as int, row as int, line as int, seg as int, origin_y, g, wd, cl, selection) == whole,
            decreases rows - row, n - line,
        {
            let (r2, l2, s2) = self.wrapped_step(out, editor, rows, row, line, seg, origin_y, gutter, width, cols, selection);
            row = r2;
            line = l2;
            seg = s2;
        }
    }

    /// One step of [`push_wrapped`]: draws the segment `seg` of line `line`
    /// on row `row`, or moves on to the next line when it has no such
    /// segment.
    fn wrapped_step(
        &self,
        out: &mut Vec<(u16, u16, String, TextStyle)>,
        editor: &EditorCore,
        rows: usize,
        row: usize,
        line: usize,
        seg: usize,
        origin_y: u16,
        gutter: usize,
        width: usize,
        cols: usize,
        selection: Option<(Position, Position)>,
    ) -> (res: (usize, usize, usize))
        requires
            editor@.wf(),
            row < rows,
            line < editor.buffer@.lines.len(),
            origin_y + rows <= u16::MAX,
        ensures
            drawn(final(out)@) + wrapped_from(editor.buffer@, rows as int, res.0 as int, res.1 as int, res.2 as int, origin_y, gutter as int, width as int, cols as int, selection)
                == drawn(old(out)@) + wrapped_from(editor.buffer@, rows as int, row as int, line as int, seg as int, origin_y, gutter as int, width as int, cols as int, selection),
            (res.0 == row + 1 && res.1 == line) || (res.0 == row && res.1 == line + 1),
    {
        let ghost v = editor.buffer@;
        let ghost g = gutter as int;
        let ghost wd = width as int;
        let ghost cl = cols as int;
        let ghost before = drawn(out@);
        let n = editor.buffer.line_count();
        assert(line < n);
        let text = line_or_empty(&editor.buffer, line);
        let segs = wrap_segments(text, cols);
        let ghost here = wrapped_from(v, rows as int, row as int, line as int, seg as int, origin_y, g, wd, cl, selection);
        if seg < segs.len() {
            let y = origin_y + row as u16;
            let (s0, s1) = segs[seg];
            let ghost gut: Seq<DrawnText> = if seg == 0 {
                seq![(0u16, y, gutter_text(line as nat, gutter as nat), TextStyle::Dim)]
            } else {
                Seq::empty()
            };
            let ghost segc = segment_cmds(text_clusters(text@), s0 as int, s1 as int, g, y, wd, line, selection);
            let ghost next = wrapped_from(v, rows as int, row + 1, line as int, seg + 1, origin_y, g, wd, cl, selection);
            assert(here == gut + segc + next) by {
                reveal(wrapped_from);
            }
            if seg == 0 {
                let gs = gutter_string(line, gutter);
                let ghost b = out@;
                let ghost gv = gs@;
                out.push((0u16, y, gs, TextStyle::Dim));
                assert(drawn(out@) =~= drawn(b).push((0u16, y, gv, TextStyle::Dim)));
            }
            assert(drawn(out@) =~= before + gut);
            push_segment(out, text, line, y, gutter, s0, s1, width, selection);
            assert(drawn(out@) + next =~= before + here);
            (row + 1, line, seg + 1)
        } else {
            assert(here == wrapped_from(v, rows as int, row as int, line + 1, 0, origin_y, g, wd, cl, selection)) by {
                reveal(wrapped_from);
            }
            (row, line + 1, 0)
        }
    }

    /// Scrolls the viewport so the cursor shows, then returns what the
    /// editor area draws and where the cursor goes (see [`view_after`] and
    /// [`draw_spec`]).
    pub fn draw(&mut self, editor: &EditorCore, width: u16, height: u16, status: &StatusLine, origin_y: u16, wrap: bool) -> (res: (
        Vec<(u16, u16, String, TextStyle)>,
        Option<(u16, u16)>,
    ))
        requires
            editor@.wf(),
            origin_y < u16::MAX,
            editor@.cursor.line < usize::MAX,
            editor@.cursor.grapheme < usize::MAX,
        ensures
            *final(self) == view_after(*old(self), editor@, width, height, origin_y, wrap),
            (drawn(res.0@), res.1) == draw_spec(*final(self), editor@, width, height, origin_y, wrap, *status),
    {
        let gutter = Self::gutter_width(editor);
        let rows = height.saturating_sub(origin_y + 1) as usize;
        let cols = (width as usize).saturating_sub(gutter);
        let selection = match editor.selection {
            Some(s) => Some(s.range()),
            None => None,
        };
        let mut out: Vec<(u16, u16, String, TextStyle)> = Vec::new();
        if wrap {
            self.left_col = 0;
            self.ensure_cursor_visible_wrapped(editor, rows, cols);
            self.push_wrapped(&mut out, editor, rows, origin_y, gutter, width as usize, cols, selection);
        } else {
            self.top_segment = 0;
            self.ensure_cursor_visible(editor, rows, cols);
            self.push_unwrapped(&mut out, editor, rows, origin_y, gutter, width as usize, cols, selection);
        }
        let ghost body = drawn(out@);
        if height > 0 {
            let mut text = status.filename.to_owned();
            if status.modified {
                text.append(" [+]");
            }
            text.append(" | Ln ");
            text.append(decimal_string(editor.cursor.line + 1).as_str());
            text.append(",Col ");
            text.append(decimal_string(editor.cursor.grapheme + 1).as_str());
            text.append(" | ");
            text.append(status.message);
            text.append(" | ");
            text.append(status.pending);
            assert(text@ =~= status_text(*status, editor@));
            let ghost tv = text@;
            out.push((0u16, height - 1, text, TextStyle::Reverse));
            assert(drawn(out@) =~= body.push((0u16, (height - 1) as u16, tv, TextStyle::Reverse)));
        } else {
            assert(drawn(out@) =~= body + Seq::<DrawnText>::empty());
        }
        let cell = if wrap {
            self.cursor_screen_position_wrapped(editor, cols)
        } else {
            self.cursor_screen_position(editor)
        };
        let cursor = match cell {
            Some((x, y)) => {
                if x < width && (origin_y as u32) + (y as u32) < (height as u32).saturating_sub(1) {
                    Some((x, origin_y + y))
                } else {
                    None
                }
            },
            None => None,
        };
        (out, cursor)
    }
}

} // verus!