//! Pure cursor movement helpers for `TextBuffer`.

use vstd::prelude::*;
use vstd::slice::slice_subrange;
use vstd::utf8::*;

use super::buffer::{clamp, gbyte, gcount, line_starts, lemma_gbyte, BufferView, TextBuffer};
use super::position::Position;
use super::unicode::{
    grapheme_offsets, lemma_sub_valid, ordered_spans, tiling_starts, trim, trimmed, utf8_str,
    word_offsets, word_spans,
};

verus! {

broadcast use {vstd::seq::group_seq_axioms, vstd::seq_lib::group_seq_properties};

/// One grapheme left, crossing to the end of the previous line.
pub open spec fn left_spec(v: BufferView, pos: Position) -> Position {
    let p = clamp(v, pos);
    if p.grapheme > 0 {
        Position { line: p.line, grapheme: (p.grapheme - 1) as usize }
    } else if p.line > 0 {
        Position {
            line: (p.line - 1) as usize,
            grapheme: gcount(v.lines[p.line - 1]) as usize,
        }
    } else {
        p
    }
}

/// One grapheme right, crossing to the start of the next line.
pub open spec fn right_spec(v: BufferView, pos: Position) -> Position {
    let p = clamp(v, pos);
    if p.grapheme < gcount(v.lines[p.line as int]) {
        Position { line: p.line, grapheme: (p.grapheme + 1) as usize }
    } else if p.line + 1 < v.lines.len() {
        Position { line: (p.line + 1) as usize, grapheme: 0 }
    } else {
        p
    }
}

/// The target line (kept inside the buffer) at the preferred grapheme,
/// clamped to that line's end.
pub open spec fn vertical_spec(v: BufferView, target_line: int, preferred: int) -> Position {
    let line = if target_line < v.lines.len() {
        target_line
    } else {
        v.lines.len() - 1
    };
    let g = if preferred <= gcount(v.lines[line]) {
        preferred
    } else {
        gcount(v.lines[line]) as int
    };
    Position { line: line as usize, grapheme: g as usize }
}

/// `a - b`, or 0 when `b > a`.
pub open spec fn sat_sub(a: int, b: int) -> int {
    if a >= b {
        a - b
    } else {
        0
    }
}

/// `[start, end)` byte ranges of the words of a line; a line without words
/// that is not empty counts as one range.
pub open spec fn word_ranges_spec(line: Seq<u8>) -> Seq<(int, int)> {
    let spans = word_spans(decode_utf8(line));
    if spans.len() == 0 && line.len() > 0 {
        seq![(0int, line.len() as int)]
    } else {
        spans.map_values(|s: (usize, usize)| (s.0 as int, s.0 + s.1))
    }
}

/// Text whose trimmed form is empty.
pub open spec fn blank(bytes: Seq<u8>) -> bool {
    trimmed(decode_utf8(bytes)).len() == 0
}

/// Start of the last non-blank range that starts before `byte`, scanning in
/// order and stopping at the first range that starts at or after `byte`.
pub open spec fn left_scan(ranges: Seq<(int, int)>, line: Seq<u8>, byte: int, acc: Option<int>) -> Option<int>
    decreases ranges.len(),
{
    if ranges.len() == 0 {
        acc
    } else if ranges[0].0 >= byte {
        acc
    } else if blank(line.subrange(ranges[0].0, ranges[0].1)) {
        left_scan(ranges.drop_first(), line, byte, acc)
    } else {
        left_scan(ranges.drop_first(), line, byte, Some(ranges[0].0))
    }
}

/// End of the first non-blank range that ends after `byte`.
pub open spec fn right_scan(ranges: Seq<(int, int)>, line: Seq<u8>, byte: int) -> Option<int>
    decreases ranges.len(),
{
    if ranges.len() == 0 {
        None
    } else if ranges[0].1 <= byte || blank(line.subrange(ranges[0].0, ranges[0].1)) {
        right_scan(ranges.drop_first(), line, byte)
    } else {
        Some(ranges[0].1)
    }
}

/// Number of leading grapheme starts below `byte`.
pub open spec fn starts_below(starts: Seq<usize>, byte: int) -> nat
    decreases starts.len(),
{
    if starts.len() == 0 || starts[0] >= byte {
        0
    } else {
        1 + starts_below(starts.drop_first(), byte)
    }
}

/// Grapheme index of a byte offset in a line.
pub open spec fn byte_to_grapheme_spec(line: Seq<u8>, byte: int) -> nat {
    starts_below(line_starts(line), byte)
}

/// The start of the word at or before the cursor, crossing to the previous
/// line at a line start.
pub open spec fn word_left_spec(v: BufferView, pos: Position) -> Position {
    let p = clamp(v, pos);
    let line = v.lines[p.line as int];
    let byte = gbyte(line, p.grapheme as int);
    if p.grapheme == 0 {
        left_spec(v, p)
    } else {
        match left_scan(word_ranges_spec(line), line, byte, None) {
            Some(start) => Position {
                line: p.line,
                grapheme: byte_to_grapheme_spec(line, start) as usize,
            },
            None => Position { line: p.line, grapheme: 0 },
        }
    }
}

/// The end of the word at or after the cursor, crossing to the next line at
/// a line end.
pub open spec fn word_right_spec(v: BufferView, pos: Position) -> Position {
    let p = clamp(v, pos);
    let line = v.lines[p.line as int];
    let byte = gbyte(line, p.grapheme as int);
    if p.grapheme == gcount(line) {
        right_spec(v, p)
    } else {
        match right_scan(word_ranges_spec(line), line, byte) {
            Some(end) => Position {
                line: p.line,
                grapheme: byte_to_grapheme_spec(line, end) as usize,
            },
            None => Position { line: p.line, grapheme: gcount(line) as usize },
        }
    }
}

/// Moves one grapheme left, crossing to the previous line when needed.
pub fn left(buffer: &TextBuffer, pos: Position) -> (res: Position)
    requires
        buffer@.wf(),
    ensures
        res == left_spec(buffer@, pos),
{
    let pos = buffer.clamp_position(pos);
    if pos.grapheme > 0 {
        Position::new(pos.line, pos.grapheme - 1)
    } else if pos.line > 0 {
        Position::new(pos.line - 1, buffer.grapheme_count(pos.line - 1))
    } else {
        pos
    }
}

/// Moves one grapheme right, crossing to the next line when needed.
pub fn right(buffer: &TextBuffer, pos: Position) -> (res: Position)
    requires
        buffer@.wf(),
    ensures
        res == right_spec(buffer@, pos),
{
    let pos = buffer.clamp_position(pos);
    proof {
        super::buffer::lemma_clamp_idem(buffer@, pos);
    }
    let count = buffer.line_count();
    if pos.grapheme < buffer.grapheme_count(pos.line) {
        Position::new(pos.line, pos.grapheme + 1)
    } else if pos.line + 1 < count {
        Position::new(pos.line + 1, 0)
    } else {
        pos
    }
}

/// Moves one line up, clamping to `preferred_grapheme` on the destination line.
pub fn up(buffer: &TextBuffer, pos: Position, preferred_grapheme: usize) -> (res: Position)
    requires
        buffer@.wf(),
    ensures
        res == vertical_spec(buffer@, sat_sub(pos.line as int, 1), preferred_grapheme as int),
{
    vertical(buffer, pos, pos.line.saturating_sub(1), preferred_grapheme)
}

/// Moves one line down, clamping to `preferred_grapheme` on the destination line.
pub fn down(buffer: &TextBuffer, pos: Position, preferred_grapheme: usize) -> (res: Position)
    requires
        buffer@.wf(),
    ensures
        res == vertical_spec(buffer@, clamp(buffer@, pos).line + 1, preferred_grapheme as int),
{
    let pos = buffer.clamp_position(pos);
    let last = buffer.line_count() - 1;
    let target = if pos.line + 1 <= last {
        pos.line + 1
    } else {
        last
    };
    vertical(buffer, pos, target, preferred_grapheme)
}

/// Moves to the start of the current line.
pub fn line_start(buffer: &TextBuffer, pos: Position) -> (res: Position)
    requires
        buffer@.wf(),
    ensures
        res == (Position { line: clamp(buffer@, pos).line, grapheme: 0 }),
{
    let pos = buffer.clamp_position(pos);
    Position::new(pos.line, 0)
}

/// Moves to the end of the current line.
pub fn line_end(buffer: &TextBuffer, pos: Position) -> (res: Position)
    requires
        buffer@.wf(),
    ensures
        res == (Position {
            line: clamp(buffer@, pos).line,
            grapheme: gcount(buffer@.lines[clamp(buffer@, pos).line as int]) as usize,
        }),
{
    let pos = buffer.clamp_position(pos);
    Position::new(pos.line, buffer.grapheme_count(pos.line))
}

/// Moves to the start of the buffer.
pub fn buffer_start(_buffer: &TextBuffer, _pos: Position) -> (res: Position)
    ensures
        res == (Position { line: 0, grapheme: 0 }),
{
    Position::new(0, 0)
}

/// Moves to the end of the buffer.
pub fn buffer_end(buffer: &TextBuffer, _pos: Position) -> (res: Position)
    requires
        buffer@.wf(),
    ensures
        res == (Position {
            line: (buffer@.lines.len() - 1) as usize,
            grapheme: gcount(buffer@.lines.last()) as usize,
        }),
{
    let line = buffer.line_count() - 1;
    Position::new(line, buffer.grapheme_count(line))
}

/// Moves up by `rows` lines, clamping to the preferred grapheme column.
pub fn page_up(buffer: &TextBuffer, pos: Position, preferred_grapheme: usize, rows: usize) -> (res: Position)
    requires
        buffer@.wf(),
    ensures
        res == vertical_spec(
            buffer@,
            sat_sub(clamp(buffer@, pos).line as int, rows as int),
            preferred_grapheme as int,
        ),
{
    let pos = buffer.clamp_position(pos);
    vertical(buffer, pos, pos.line.saturating_sub(rows), preferred_grapheme)
}

/// Moves down by `rows` lines, clamping to the preferred grapheme column.
pub fn page_down(buffer: &TextBuffer, pos: Position, preferred_grapheme: usize, rows: usize) -> (res: Position)
    requires
        buffer@.wf(),
    ensures
        res == vertical_spec(
            buffer@,
            clamp(buffer@, pos).line + rows,
            preferred_grapheme as int,
        ),
{
    let pos = buffer.clamp_position(pos);
    let last = buffer.line_count() - 1;
    let wanted = pos.line.saturating_add(rows);
    let target = if wanted <= last {
        wanted
    } else {
        last
    };
    vertical(buffer, pos, target, preferred_grapheme)
}

fn vertical(buffer: &TextBuffer, pos: Position, target_line: usize, preferred_grapheme: usize) -> (res: Position)
    requires
        buffer@.wf(),
    ensures
        res == vertical_spec(buffer@, target_line as int, preferred_grapheme as int),
{
    let _pos = buffer.clamp_position(pos);
    let last = buffer.line_count() - 1;
    let line = if target_line <= last {
        target_line
    } else {
        last
    };
    let count = buffer.grapheme_count(line);
    let grapheme = if preferred_grapheme <= count {
        preferred_grapheme
    } else {
        count
    };
    Position::new(line, grapheme)
}


/// `Some` of a usize as an int.
pub open spec fn opt_int(o: Option<usize>) -> Option<int> {
    match o {
        Some(x) => Some(x as int),
        None => None,
    }
}

/// Ranges as int pairs.
pub open spec fn ranges_view(r: Seq<(usize, usize)>) -> Seq<(int, int)> {
    r.map_values(|x: (usize, usize)| (x.0 as int, x.1 as int))
}

/// The text of a line of a well-formed buffer.
fn line_text(buffer: &TextBuffer, index: usize) -> (res: &str)
    requires
        buffer@.wf(),
        index < buffer@.lines.len(),
    ensures
        encode_utf8(res@) == buffer@.lines[index as int],
{
    match buffer.line(index) {
        Some(text) => text,
        None => "",
    }
}

/// Byte offset of grapheme `grapheme_index`, or the text length past the end.
fn grapheme_to_byte(text: &str, grapheme_index: usize) -> (res: usize)
    ensures
        res == gbyte(encode_utf8(text@), grapheme_index as int),
        tiling_starts(line_starts(encode_utf8(text@)), encode_utf8(text@)),
{
    proof {
        encode_utf8_decode_utf8(text@);
    }
    let starts = grapheme_offsets(text);
    assert(line_starts(encode_utf8(text@)) == starts@);
    if grapheme_index < starts.len() {
        starts[grapheme_index]
    } else {
        text.as_bytes().len()
    }
}

/// Grapheme index of a byte offset: how many graphemes start before it.
fn byte_to_grapheme(text: &str, byte_index: usize) -> (res: usize)
    ensures
        res == byte_to_grapheme_spec(encode_utf8(text@), byte_index as int),
{
    proof {
        encode_utf8_decode_utf8(text@);
    }
    let starts = grapheme_offsets(text);
    let ghost st = starts@;
    let mut i: usize = 0;
    while i < starts.len() && starts[i] < byte_index
        invariant
            st == starts@,
            i <= st.len(),
            starts_below(st, byte_index as int) == i + starts_below(st.skip(i as int), byte_index as int),
        decreases st.len() - i,
    {
        assert(st.skip(i as int).drop_first() =~= st.skip(i + 1));
        i = i + 1;
    }
    i
}

/// Word ranges of a line, with the whole line as one range when it has no word.
fn word_ranges(line: &str) -> (res: Vec<(usize, usize)>)
    ensures
        ranges_view(res@) == word_ranges_spec(encode_utf8(line@)),
        forall|i: int|
            0 <= i < res@.len() ==> {
                &&& (#[trigger] res@[i]).0 <= res@[i].1 <= encode_utf8(line@).len()
                &&& is_char_boundary(encode_utf8(line@), res@[i].0 as int)
                &&& is_char_boundary(encode_utf8(line@), res@[i].1 as int)
            },
{
    proof {
        encode_utf8_decode_utf8(line@);
        encode_utf8_valid_utf8(line@);
        is_char_boundary_start_end_of_seq(encode_utf8(line@));
    }
    let words = word_offsets(line);
    let n = line.as_bytes().len();
    let ghost spans = words@;
    let mut ranges: Vec<(usize, usize)> = Vec::new();
    let mut i: usize = 0;
    while i < words.len()
        invariant
            spans == words@,
            n == encode_utf8(line@).len(),
            ordered_spans(spans, encode_utf8(line@)),
            i <= spans.len(),
            ranges_view(ranges@) == spans.take(i as int).map_values(
                |s: (usize, usize)| (s.0 as int, s.0 + s.1),
            ),
            forall|k: int|
                0 <= k < ranges@.len() ==> {
                    &&& (#[trigger] ranges@[k]).0 <= ranges@[k].1 <= encode_utf8(line@).len()
                    &&& is_char_boundary(encode_utf8(line@), ranges@[k].0 as int)
                    &&& is_char_boundary(encode_utf8(line@), ranges@[k].1 as int)
                },
        decreases spans.len() - i,
    {
        let (start, len) = words[i];
        assert(spans[i as int] == (start, len));
        let ghost before = ranges@;
        ranges.push((start, start + len));
        assert(ranges_view(ranges@) =~= ranges_view(before).push((start as int, start + len)));
        i = i + 1;
        assert(spans.take(i as int) =~= spans.take(i - 1).push(spans[i - 1]));
    }
    assert(spans.take(spans.len() as int) =~= spans);
    if ranges.len() == 0 && n > 0 {
        let len = n;
        assert(spans.len() == 0);
        ranges.push((0, len));
        assert(ranges@ =~= seq![(0usize, len)]);
        assert(ranges_view(ranges@) =~= seq![(0int, len as int)]);
    }
    ranges
}

/// Whether `bytes[start..end]` trims to nothing.
fn is_blank(bytes: &[u8], start: usize, end: usize) -> (res: bool)
    requires
        valid_utf8(bytes@),
        start <= end <= bytes@.len(),
        is_char_boundary(bytes@, start as int),
        is_char_boundary(bytes@, end as int),
    ensures
        res == blank(bytes@.subrange(start as int, end as int)),
{
    proof {
        lemma_sub_valid(bytes@, start as int, end as int);
    }
    let piece = slice_subrange(bytes, start, end);
    match utf8_str(piece) {
        Some(text) => {
            proof {
                encode_utf8_decode_utf8(text@);
            }
            trim(text).is_empty()
        },
        None => true,
    }
}

/// Moves to the start of the previous word-like piece, crossing line starts.
pub fn word_left(buffer: &TextBuffer, pos: Position) -> (res: Position)
    requires
        buffer@.wf(),
    ensures
        res == word_left_spec(buffer@, pos),
{
    let pos = buffer.clamp_position(pos);
    proof {
        super::buffer::lemma_clamp_idem(buffer@, pos);
    }
    if pos.grapheme == 0 {
        return left(buffer, pos);
    }
    let line = line_text(buffer, pos.line);
    let ghost lb = buffer@.lines[pos.line as int];
    let byte = grapheme_to_byte(line, pos.grapheme);
    let bytes = line.as_bytes();
    proof {
        encode_utf8_valid_utf8(line@);
    }
    // The last word piece STARTING before the cursor is the target, so that a
    // cursor in the middle of a word jumps to that word's start, not past it
    // to the previous word.
    let ranges = word_ranges(line);
    let ghost r = ranges_view(ranges@);
    let mut target: Option<usize> = None;
    let mut i: usize = 0;
    let mut done = false;
    while i < ranges.len() && !done
        invariant
            r == ranges_view(ranges@),
            bytes@ == lb,
            valid_utf8(lb),
            i <= ranges@.len(),
            forall|k: int|
                0 <= k < ranges@.len() ==> {
                    &&& (#[trigger] ranges@[k]).0 <= ranges@[k].1 <= lb.len()
                    &&& is_char_boundary(lb, ranges@[k].0 as int)
                    &&& is_char_boundary(lb, ranges@[k].1 as int)
                },
            left_scan(r, lb, byte as int, None) == if done {
                opt_int(target)
            } else {
                left_scan(r.skip(i as int), lb, byte as int, opt_int(target))
            },
            target matches Some(t) ==> t <= lb.len(),
        decreases ranges@.len() - i + (if done { 0int } else { 1int }),
    {
        let (start, end) = ranges[i];
        let ghost rest = r.skip(i as int);
        assert(rest[0] == (start as int, end as int));
        assert(rest.drop_first() =~= r.skip(i + 1));
        if start >= byte {
            done = true;
        } else {
            if !is_blank(bytes, start, end) {
                target = Some(start);
            }
            i = i + 1;
        }
    }
    proof {
        if !done {
            assert(r.skip(i as int).len() == 0);
        }
    }
    match target {
        Some(start) => Position::new(pos.line, byte_to_grapheme(line, start)),
        None => Position::new(pos.line, 0),
    }
}

/// Moves to the end of the next word-like piece, crossing line ends.
pub fn word_right(buffer: &TextBuffer, pos: Position) -> (res: Position)
    requires
        buffer@.wf(),
    ensures
        res == word_right_spec(buffer@, pos),
{
    let p = buffer.clamp_position(pos);
    proof {
        super::buffer::lemma_clamp_idem(buffer@, p);
    }
    if p.grapheme == buffer.grapheme_count(p.line) {
        return right(buffer, p);
    }
    let line = line_text(buffer, p.line);
    let ghost lb = buffer@.lines[p.line as int];
    let byte = grapheme_to_byte(line, p.grapheme);
    let bytes = line.as_bytes();
    proof {
        encode_utf8_valid_utf8(line@);
    }
    let ranges = word_ranges(line);
    let ghost r = ranges_view(ranges@);
    let mut i: usize = 0;
    while i < ranges.len()
        invariant
            r == ranges_view(ranges@),
            bytes@ == lb,
            valid_utf8(lb),
            i <= ranges@.len(),
            forall|k: int|
                0 <= k < ranges@.len() ==> {
                    &&& (#[trigger] ranges@[k]).0 <= ranges@[k].1 <= lb.len()
                    &&& is_char_boundary(lb, ranges@[k].0 as int)
                    &&& is_char_boundary(lb, ranges@[k].1 as int)
                },
            right_scan(r, lb, byte as int) == right_scan(r.skip(i as int), lb, byte as int),
            r == word_ranges_spec(lb),
            encode_utf8(line@) == lb,
            lb == buffer@.lines[p.line as int],
            byte == gbyte(lb, p.grapheme as int),
            p == clamp(buffer@, pos),
            p.line < buffer@.lines.len(),
            p.grapheme != gcount(lb),
        decreases ranges@.len() - i,
    {
        let (start, end) = ranges[i];
        let ghost rest = r.skip(i as int);
        assert(rest[0] == (start as int, end as int));
        assert(rest.drop_first() =~= r.skip(i + 1));
        if end > byte && !is_blank(bytes, start, end) {
            assert(right_scan(rest, lb, byte as int) == Some(end as int));
            let g = byte_to_grapheme(line, end);
            assert(right_scan(word_ranges_spec(lb), lb, byte as int) == Some(end as int));
                        assert(buffer@.lines[p.line as int] == lb);
            assert(g == byte_to_grapheme_spec(lb, end as int));
            let res = Position::new(p.line, g);
            assert(res == word_right_spec(buffer@, pos));
            return res;
        }
        i = i + 1;
    }
    Position::new(p.line, buffer.grapheme_count(p.line))
}

} // verus!
