//! Pure text buffer model.
//!
//! The buffer is line-based: every line is stored as its UTF-8 bytes without
//! the line terminator.  Public editing APIs accept and return
//! grapheme-indexed [`Position`] values; byte offsets stay private so Unicode
//! clusters are never split by callers.

use vstd::prelude::*;
use vstd::slice::{slice_subrange, slice_to_vec};
use vstd::utf8::*;

use super::position::{pos_le, precedes_or_equals, Position};
use super::unicode::{
    grapheme_offsets, grapheme_starts, lemma_ascii_split, tiling_starts, utf8_str, utf8_string,
};

verus! {

broadcast use {
    vstd::seq::group_seq_axioms,
    vstd::seq_lib::group_seq_properties,
    vstd::utf8::valid_utf8_concat,
};

/// File-wide line ending style used when serializing the buffer.
#[derive(Debug, Clone, Copy, Default, PartialEq, Eq, Structural)]
pub enum LineEnding {
    /// `\n`
    #[default]
    Lf,
    /// `\r\n`
    CrLf,
}

/// The bytes of a line ending.
pub open spec fn eol_bytes(eol: LineEnding) -> Seq<u8> {
    match eol {
        LineEnding::Lf => seq![10u8],
        LineEnding::CrLf => seq![13u8, 10u8],
    }
}

impl LineEnding {
    /// The bytes written between lines.
    fn as_bytes(self) -> (res: Vec<u8>)
        ensures
            res@ == eol_bytes(self),
    {
        match self {
            LineEnding::Lf => vec![10u8],
            LineEnding::CrLf => vec![13u8, 10u8],
        }
    }
}

/// Metadata reported by [`TextBuffer::from_bytes`].
#[derive(Debug, Clone, Copy, Default, PartialEq, Eq, Structural)]
pub struct LoadInfo {
    /// True when both LF and CRLF were present in the loaded bytes.
    pub mixed_line_endings: bool,
}

/// Errors that prevent loading bytes into a text buffer.
#[derive(Debug, Clone, Copy, PartialEq, Eq, Structural)]
pub enum LoadError {
    /// Input was not valid UTF-8. Lossy conversion is never attempted.
    InvalidUtf8,
}

/// Editable text plus file round-trip metadata.
#[derive(Debug, Clone, PartialEq, Eq)]
pub struct TextBuffer {
    lines: Vec<Vec<u8>>,
    line_ending: LineEnding,
    trailing_newline: bool,
}

/// The abstract content of a buffer: the UTF-8 bytes of each line (without
/// terminator) and the serialization metadata.
pub struct BufferView {
    pub lines: Seq<Seq<u8>>,
    pub line_ending: LineEnding,
    pub trailing_newline: bool,
}

impl View for TextBuffer {
    type V = BufferView;

    closed spec fn view(&self) -> BufferView {
        BufferView {
            lines: bytes_view(self.lines@),
            line_ending: self.line_ending,
            trailing_newline: self.trailing_newline,
        }
    }
}

/// The byte contents of a vector of byte vectors.
pub open spec fn bytes_view(v: Seq<Vec<u8>>) -> Seq<Seq<u8>> {
    v.map_values(|x: Vec<u8>| x@)
}

/// No LF byte occurs in `s`.
pub open spec fn no_lf(s: Seq<u8>) -> bool {
    forall|i: int| 0 <= i < s.len() ==> s[i] != 10u8
}

/// A storable line: valid UTF-8 without a line feed.
pub open spec fn line_ok(s: Seq<u8>) -> bool {
    valid_utf8(s) && no_lf(s)
}

impl BufferView {
    /// Well-formedness: at least one line, every line valid UTF-8 without LF.
    pub open spec fn wf(self) -> bool {
        &&& self.lines.len() >= 1
        &&& forall|i: int| 0 <= i < self.lines.len() ==> line_ok(#[trigger] self.lines[i])
    }
}

/// Grapheme cluster start offsets of a stored line.
pub open spec fn line_starts(line: Seq<u8>) -> Seq<usize> {
    grapheme_starts(decode_utf8(line))
}

/// Number of grapheme clusters in a stored line.
pub open spec fn gcount(line: Seq<u8>) -> nat {
    line_starts(line).len()
}

/// Byte offset of grapheme `g` in `line`, or the line length past its end.
pub open spec fn gbyte(line: Seq<u8>, g: int) -> int {
    if 0 <= g < gcount(line) {
        line_starts(line)[g] as int
    } else {
        line.len() as int
    }
}

/// A CR right before a removed LF is dropped too.
pub open spec fn strip_cr(piece: Seq<u8>) -> Seq<u8> {
    if piece.len() > 0 && piece.last() == 13u8 {
        piece.drop_last()
    } else {
        piece
    }
}

/// The pieces of `text` between LF bytes (the last piece is what follows the
/// last LF); a piece that precedes an LF loses one trailing CR.
pub open spec fn lf_pieces(text: Seq<u8>) -> Seq<Seq<u8>>
    decreases text.len(),
{
    if text.len() == 0 {
        seq![Seq::<u8>::empty()]
    } else {
        let prev = lf_pieces(text.drop_last());
        if text.last() == 10u8 {
            prev.drop_last().push(strip_cr(prev.last())).push(Seq::<u8>::empty())
        } else {
            prev.drop_last().push(prev.last().push(text.last()))
        }
    }
}

/// Number of LF terminators not preceded by CR.
pub open spec fn lf_count(text: Seq<u8>) -> nat
    decreases text.len(),
{
    if text.len() == 0 {
        0
    } else {
        let prev = lf_pieces(text.drop_last());
        lf_count(text.drop_last()) + if text.last() == 10u8 && strip_cr(prev.last())
            == prev.last() {
            1nat
        } else {
            0nat
        }
    }
}

/// Number of CRLF terminators.
pub open spec fn crlf_count(text: Seq<u8>) -> nat
    decreases text.len(),
{
    if text.len() == 0 {
        0
    } else {
        let prev = lf_pieces(text.drop_last());
        crlf_count(text.drop_last()) + if text.last() == 10u8 && strip_cr(prev.last())
            != prev.last() {
            1nat
        } else {
            0nat
        }
    }
}

/// The logical lines of a loaded file: a final terminator ends the last line
/// rather than starting an empty one.
pub open spec fn file_lines(text: Seq<u8>) -> Seq<Seq<u8>> {
    let pieces = lf_pieces(text);
    if text.len() == 0 {
        seq![Seq::<u8>::empty()]
    } else if pieces.last().len() == 0 {
        pieces.drop_last()
    } else {
        pieces
    }
}

/// The buffer `TextBuffer::from_bytes` builds from valid UTF-8 `text`.
pub open spec fn loaded(text: Seq<u8>) -> BufferView {
    BufferView {
        lines: file_lines(text),
        line_ending: if crlf_count(text) > lf_count(text) {
            LineEnding::CrLf
        } else {
            LineEnding::Lf
        },
        trailing_newline: text.len() > 0 && text.last() == 10u8,
    }
}

/// `lines` joined by `sep`.
pub open spec fn join(lines: Seq<Seq<u8>>, sep: Seq<u8>) -> Seq<u8>
    decreases lines.len(),
{
    if lines.len() == 0 {
        Seq::<u8>::empty()
    } else if lines.len() == 1 {
        lines[0]
    } else {
        join(lines.drop_last(), sep) + sep + lines.last()
    }
}

/// The bytes `TextBuffer::to_bytes` writes.
pub open spec fn serialize(v: BufferView) -> Seq<u8> {
    join(v.lines, eol_bytes(v.line_ending)) + if v.trailing_newline {
        eol_bytes(v.line_ending)
    } else {
        Seq::<u8>::empty()
    }
}

/// The position moved onto an existing line and at most to its last grapheme end.
pub open spec fn clamp(v: BufferView, pos: Position) -> Position {
    let line = if pos.line < v.lines.len() {
        pos.line as int
    } else {
        v.lines.len() - 1
    };
    let g = if pos.grapheme <= gcount(v.lines[line]) {
        pos.grapheme as int
    } else {
        gcount(v.lines[line]) as int
    };
    Position { line: line as usize, grapheme: g as usize }
}

pub proof fn lemma_lf_pieces_len(text: Seq<u8>)
    ensures
        lf_pieces(text).len() >= 1,
        text.len() > 0 && text.last() == 10u8 ==> lf_pieces(text).len() >= 2 && lf_pieces(
            text,
        ).last().len() == 0,
        text.len() > 0 && text.last() != 10u8 ==> lf_pieces(text).last().len() > 0,
    decreases text.len(),
{
    if text.len() > 0 {
        lemma_lf_pieces_len(text.drop_last());
    }
}

proof fn lemma_lf_valid()
    ensures
        valid_utf8(seq![10u8]),
        valid_utf8(seq![13u8, 10u8]),
{
    reveal_with_fuel(valid_utf8, 3);
    let a = seq![10u8];
    assert(valid_first_scalar(a));
    assert(pop_first_scalar(a) =~= Seq::<u8>::empty());
    let b = seq![13u8, 10u8];
    assert(valid_first_scalar(b));
    assert(pop_first_scalar(b) =~= a);
}

/// Copies `v[start..end]`.
fn copy_range(v: &[u8], start: usize, end: usize) -> (res: Vec<u8>)
    requires
        start <= end <= v@.len(),
    ensures
        res@ == v@.subrange(start as int, end as int),
{
    slice_to_vec(slice_subrange(v, start, end))
}

/// Appends `src` to `dst`.
fn append_bytes(dst: &mut Vec<u8>, src: &[u8])
    ensures
        final(dst)@ == old(dst)@ + src@,
{
    let mut i: usize = 0;
    while i < src.len()
        invariant
            i <= src@.len(),
            dst@ == old(dst)@ + src@.subrange(0, i as int),
        decreases src@.len() - i,
    {
        dst.push(src[i]);
        i = i + 1;
        assert(src@.subrange(0, i as int) =~= src@.subrange(0, i - 1).push(src@[i - 1]));
    }
    assert(src@.subrange(0, src@.len() as int) =~= src@);
}

/// Splits `text` at LF bytes as `lf_pieces` does and counts both terminators.
fn split_counted(text: &[u8]) -> (res: (Vec<Vec<u8>>, usize, usize))
    ensures
        bytes_view(res.0@) == lf_pieces(text@),
        res.1 == lf_count(text@),
        res.2 == crlf_count(text@),
        valid_utf8(text@) ==> forall|i: int|
            0 <= i < bytes_view(res.0@).len() ==> line_ok(#[trigger] bytes_view(res.0@)[i]),
{
    let mut parts: Vec<Vec<u8>> = Vec::new();
    let mut start: usize = 0;
    let mut offset: usize = 0;
    let mut lf: usize = 0;
    let mut crlf: usize = 0;
    let ghost t = text@;
    assert(t.take(0) =~= Seq::<u8>::empty());
    while offset < text.len()
        invariant
            t == text@,
            start <= offset <= t.len(),
            lf + crlf <= offset,
            lf_pieces(t.take(offset as int)) == bytes_view(parts@).push(
                t.subrange(start as int, offset as int),
            ),
            lf == lf_count(t.take(offset as int)),
            crlf == crlf_count(t.take(offset as int)),
            no_lf(t.subrange(start as int, offset as int)),
            valid_utf8(t) ==> valid_utf8(t.subrange(start as int, t.len() as int)),
            valid_utf8(t) ==> forall|i: int|
                0 <= i < bytes_view(parts@).len() ==> line_ok(#[trigger] bytes_view(parts@)[i]),
        decreases t.len() - offset,
    {
        let ghost prefix = t.take(offset as int + 1);
        assert(prefix.drop_last() =~= t.take(offset as int));
        assert(prefix.last() == t[offset as int]);
        let ghost prev = lf_pieces(t.take(offset as int));
        assert(prev.last() == t.subrange(start as int, offset as int));
        assert(prev.drop_last() =~= bytes_view(parts@));
        if text[offset] == 10u8 {
            let ghost piece = t.subrange(start as int, offset as int);
            let line_end = if offset > start && text[offset - 1] == 13u8 {
                crlf = crlf + 1;
                offset - 1
            } else {
                lf = lf + 1;
                offset
            };
            let line = copy_range(text, start, line_end);
            assert(line@ == strip_cr(piece));
            proof {
                if valid_utf8(t) {
                    let rem = t.subrange(start as int, t.len() as int);
                    let k = offset - start;
                    lemma_ascii_split(rem, k as int);
                    assert(rem.subrange(0, k as int) =~= piece);
                    assert(rem.subrange(k + 1, rem.len() as int) =~= t.subrange(
                        offset + 1,
                        t.len() as int,
                    ));
                    if line_end < offset {
                        lemma_ascii_split(piece, piece.len() - 1);
                        assert(piece.subrange(0, piece.len() - 1) =~= line@);
                    }
                }
            }
            parts.push(line);
            start = offset + 1;
            assert(bytes_view(parts@) =~= prev.drop_last().push(strip_cr(prev.last())));
        } else {
            assert(t.subrange(start as int, offset + 1) =~= t.subrange(
                start as int,
                offset as int,
            ).push(t[offset as int]));
        }
        offset = offset + 1;
        assert(t.subrange(start as int, offset as int).len() == 0 ==> t.subrange(
            start as int,
            offset as int,
        ) =~= Seq::<u8>::empty());
    }
    assert(t.take(t.len() as int) =~= t);
    proof {
        if valid_utf8(t) {
            assert(t.subrange(start as int, t.len() as int) =~= t.subrange(
                start as int,
                offset as int,
            ));
        }
    }
    let last = copy_range(text, start, text.len());
    parts.push(last);
    assert(bytes_view(parts@) =~= lf_pieces(t));
    (parts, lf, crlf)
}

/// Lines of a loaded file and its terminator counts.
fn split_file_lines(text: &[u8]) -> (res: (Vec<Vec<u8>>, usize, usize))
    ensures
        bytes_view(res.0@) == file_lines(text@),
        res.1 == lf_count(text@),
        res.2 == crlf_count(text@),
        valid_utf8(text@) ==> forall|i: int|
            0 <= i < bytes_view(res.0@).len() ==> line_ok(#[trigger] bytes_view(res.0@)[i]),
{
    if text.len() == 0 {
        let mut lines: Vec<Vec<u8>> = Vec::new();
        lines.push(Vec::new());
        assert(bytes_view(lines@) =~= seq![Seq::<u8>::empty()]);
        assert(line_ok(Seq::<u8>::empty()));
        return (lines, 0, 0);
    }
    let (mut lines, lf, crlf) = split_counted(text);
    proof {
        lemma_lf_pieces_len(text@);
    }
    let n = lines.len();
    if lines[n - 1].len() == 0 {
        lines.pop();
        assert(bytes_view(lines@) =~= lf_pieces(text@).drop_last());
    }
    (lines, lf, crlf)
}

/// Pieces of inserted text between line breaks.
fn split_insert_text(text: &[u8]) -> (res: Vec<Vec<u8>>)
    ensures
        bytes_view(res@) == lf_pieces(text@),
        valid_utf8(text@) ==> forall|i: int|
            0 <= i < bytes_view(res@).len() ==> line_ok(#[trigger] bytes_view(res@)[i]),
{
    let (parts, _, _) = split_counted(text);
    parts
}


/// Each grapheme start is at least its index; the count is at most the length.
pub proof fn lemma_starts_bounds(starts: Seq<usize>, bytes: Seq<u8>)
    requires
        tiling_starts(starts, bytes),
    ensures
        forall|i: int| 0 <= i < starts.len() ==> i <= #[trigger] starts[i],
        starts.len() <= bytes.len(),
{
    assert forall|i: int| 0 <= i < starts.len() implies i <= #[trigger] starts[i] by {
        lemma_start_at_least_index(starts, bytes, i);
    }
    if starts.len() > 0 {
        assert(starts.len() - 1 <= starts[starts.len() - 1]);
    }
}

proof fn lemma_start_at_least_index(starts: Seq<usize>, bytes: Seq<u8>, i: int)
    requires
        tiling_starts(starts, bytes),
        0 <= i < starts.len(),
    ensures
        i <= starts[i],
    decreases i,
{
    if i > 0 {
        lemma_start_at_least_index(starts, bytes, i - 1);
    }
}

/// Facts about grapheme byte offsets of a valid line whose starts tile it.
pub proof fn lemma_gbyte(line: Seq<u8>, g: int)
    requires
        valid_utf8(line),
        tiling_starts(line_starts(line), line),
        0 <= g,
    ensures
        0 <= gbyte(line, g) <= line.len(),
        is_char_boundary(line, gbyte(line, g)),
        g <= gcount(line) ==> g <= gbyte(line, g),
        gcount(line) <= line.len(),
        forall|h: int| g <= h ==> gbyte(line, g) <= #[trigger] gbyte(line, h),
{
    lemma_starts_bounds(line_starts(line), line);
    is_char_boundary_start_end_of_seq(line);
}

/// The grapheme starts of a stored line, from `unicode-segmentation`.
fn line_grapheme_starts(line: &[u8]) -> (res: Vec<usize>)
    requires
        valid_utf8(line@),
    ensures
        res@ == line_starts(line@),
        tiling_starts(res@, line@),
{
    match utf8_str(line) {
        Some(s) => {
            proof {
                encode_utf8_decode_utf8(s@);
            }
            grapheme_offsets(s)
        },
        None => Vec::new(),
    }
}

/// Number of grapheme clusters of a stored line.
fn grapheme_count(line: &[u8]) -> (res: usize)
    requires
        valid_utf8(line@),
    ensures
        res == gcount(line@),
        tiling_starts(line_starts(line@), line@),
        res <= line@.len(),
{
    let starts = line_grapheme_starts(line);
    proof {
        lemma_starts_bounds(starts@, line@);
    }
    starts.len()
}

/// Byte offset of a grapheme index, or the line length past the end.
fn grapheme_to_byte(line: &[u8], grapheme_index: usize) -> (res: usize)
    requires
        valid_utf8(line@),
    ensures
        res == gbyte(line@, grapheme_index as int),
        tiling_starts(line_starts(line@), line@),
{
    let starts = line_grapheme_starts(line);
    if grapheme_index < starts.len() {
        starts[grapheme_index]
    } else {
        line.len()
    }
}

/// Both ends of `line_ok` survive splitting at a char boundary.
pub proof fn lemma_line_ok_split(line: Seq<u8>, k: int)
    requires
        line_ok(line),
        0 <= k <= line.len(),
        is_char_boundary(line, k),
    ensures
        line_ok(line.take(k)),
        line_ok(line.skip(k)),
{
    valid_utf8_split(line, k);
    assert(line.take(k) =~= line.subrange(0, k));
    assert(line.skip(k) =~= line.subrange(k, line.len() as int));
}

/// `line_ok` is closed under concatenation.
pub proof fn lemma_line_ok_concat(a: Seq<u8>, b: Seq<u8>)
    requires
        line_ok(a),
        line_ok(b),
    ensures
        line_ok(a + b),
{
    valid_utf8_concat(a, b);
}

impl Default for TextBuffer {
    /// A new (not loaded) buffer: one empty line, LF endings, and a final
    /// newline on output so shells and diffs see a POSIX-friendly file.
    fn default() -> (res: Self)
        ensures
            res@.lines == seq![Seq::<u8>::empty()],
            res@.line_ending == LineEnding::Lf,
            res@.trailing_newline,
            res@.wf(),
    {
        let mut lines: Vec<Vec<u8>> = Vec::new();
        lines.push(Vec::new());
        let res = TextBuffer { lines, line_ending: LineEnding::Lf, trailing_newline: true };
        assert(res@.lines =~= seq![Seq::<u8>::empty()]);
        assert(line_ok(Seq::<u8>::empty()));
        res
    }
}

impl TextBuffer {
    /// Builds a buffer from UTF-8 bytes while preserving EOL metadata.
    pub fn from_bytes(bytes: &[u8]) -> (res: Result<(Self, LoadInfo), LoadError>)
        ensures
            match res {
                Ok((buffer, info)) => {
                    &&& valid_utf8(bytes@)
                    &&& buffer@ == loaded(bytes@)
                    &&& buffer@.wf()
                    &&& info.mixed_line_endings == (lf_count(bytes@) > 0 && crlf_count(bytes@)
                        > 0)
                },
                Err(error) => !valid_utf8(bytes@) && error == LoadError::InvalidUtf8,
            },
    {
        if utf8_str(bytes).is_none() {
            return Err(LoadError::InvalidUtf8);
        }
        let (lines, lf_count, crlf_count) = split_file_lines(bytes);
        let line_ending = if crlf_count > lf_count {
            LineEnding::CrLf
        } else {
            LineEnding::Lf
        };
        let trailing_newline = bytes.len() > 0 && bytes[bytes.len() - 1] == 10u8;
        let buffer = TextBuffer { lines, line_ending, trailing_newline };
        proof {
            if bytes@.len() > 0 {
                lemma_lf_pieces_len(bytes@);
            }
            assert(buffer@.lines.len() >= 1);
        }
        Ok((buffer, LoadInfo { mixed_line_endings: lf_count > 0 && crlf_count > 0 }))
    }

    /// Serializes the buffer using the loaded line ending style and final-EOL flag.
    pub fn to_bytes(&self) -> (res: Vec<u8>)
        ensures
            res@ == serialize(self@),
    {
        let eol = self.line_ending.as_bytes();
        let mut text: Vec<u8> = Vec::new();
        let mut i: usize = 0;
        let ghost lines = self@.lines;
        while i < self.lines.len()
            invariant
                lines == self@.lines,
                i <= lines.len(),
                eol@ == eol_bytes(self.line_ending),
                text@ == join(lines.take(i as int), eol@),
            decreases lines.len() - i,
        {
            if i > 0 {
                append_bytes(&mut text, &eol);
            }
            append_bytes(&mut text, &self.lines[i]);
            assert(lines.take(i + 1).drop_last() =~= lines.take(i as int));
            assert(lines.take(i + 1).last() == self.lines@[i as int]@);
            if i == 0 {
                assert(text@ =~= join(lines.take(1), eol@));
            }
            i = i + 1;
        }
        assert(lines.take(lines.len() as int) =~= lines);
        if self.trailing_newline {
            append_bytes(&mut text, &eol);
        } else {
            assert(text@ =~= text@ + Seq::<u8>::empty());
        }
        text
    }

    /// Returns a line without its EOL marker.
    pub fn line(&self, index: usize) -> (res: Option<&str>)
        requires
            self@.wf(),
        ensures
            index < self@.lines.len() ==> (res matches Some(s) && encode_utf8(s@)
                == self@.lines[index as int]),
            index >= self@.lines.len() ==> res is None,
    {
        if index < self.lines.len() {
            assert(line_ok(self@.lines[index as int]));
            utf8_str(&self.lines[index])
        } else {
            None
        }
    }

    /// A buffer holds no more lines than a `usize` can count.
    pub proof fn lemma_line_count_fits(&self)
        ensures
            self@.lines.len() <= usize::MAX,
    {
        assert(self.lines.len() == self.lines@.len());
    }

    /// Number of logical lines. Always at least one.
    pub fn line_count(&self) -> (res: usize)
        ensures
            res == self@.lines.len(),
    {
        self.lines.len()
    }

    /// Counts Unicode grapheme clusters in a line, or returns zero for an invalid line.
    pub fn grapheme_count(&self, line_index: usize) -> (res: usize)
        requires
            self@.wf(),
        ensures
            res == if line_index < self@.lines.len() {
                gcount(self@.lines[line_index as int])
            } else {
                0
            },
    {
        if line_index < self.lines.len() {
            assert(line_ok(self@.lines[line_index as int]));
            grapheme_count(&self.lines[line_index])
        } else {
            0
        }
    }

    /// Clamps a position to an existing line and that line's grapheme end.
    pub fn clamp_position(&self, pos: Position) -> (res: Position)
        requires
            self@.wf(),
        ensures
            res == clamp(self@, pos),
    {
        let line = if pos.line < self.lines.len() {
            pos.line
        } else {
            self.lines.len() - 1
        };
        let count = self.grapheme_count(line);
        let grapheme = if pos.grapheme <= count {
            pos.grapheme
        } else {
            count
        };
        Position::new(line, grapheme)
    }

    /// Line ending selected at load time or defaulted for new/empty buffers.
    pub fn line_ending(&self) -> (res: LineEnding)
        ensures
            res == self@.line_ending,
    {
        self.line_ending
    }

    /// Whether serialization should append a final line ending.
    pub fn trailing_newline(&self) -> (res: bool)
        ensures
            res == self@.trailing_newline,
    {
        self.trailing_newline
    }

    fn normalized_range(&self, start: Position, end: Position) -> (res: (Position, Position))
        requires
            self@.wf(),
        ensures
            res == normalized(self@, start, end),
    {
        let start = self.clamp_position(start);
        let end = self.clamp_position(end);
        if precedes_or_equals(start, end) {
            (start, end)
        } else {
            (end, start)
        }
    }
}

/// Both ends clamped, then put in buffer order.
pub open spec fn normalized(v: BufferView, start: Position, end: Position) -> (Position, Position) {
    let s = clamp(v, start);
    let e = clamp(v, end);
    if pos_le(s, e) {
        (s, e)
    } else {
        (e, s)
    }
}


/// A join splits into everything before the last line, then the last line.
proof fn lemma_join_last(q: Seq<Seq<u8>>, sep: Seq<u8>)
    requires
        q.len() >= 1,
    ensures
        join(q, sep) == (if q.len() == 1 {
            Seq::<u8>::empty()
        } else {
            join(q.drop_last(), sep) + sep
        }) + q.last(),
{
    if q.len() == 1 {
        assert(q[0] == q.last());
        assert(Seq::<u8>::empty() + q.last() =~= q.last());
    }
}

/// Replacing the last line of a join.
proof fn lemma_join_replace_last(q: Seq<Seq<u8>>, x: Seq<u8>, sep: Seq<u8>)
    requires
        q.len() >= 1,
    ensures
        join(q.drop_last().push(x), sep) == (if q.len() == 1 {
            Seq::<u8>::empty()
        } else {
            join(q.drop_last(), sep) + sep
        }) + x,
{
    let r = q.drop_last().push(x);
    assert(r.drop_last() =~= q.drop_last());
    lemma_join_last(r, sep);
}

/// Joining the pieces of `text` with the one terminator it uses gives it back.
proof fn lemma_pieces_join(text: Seq<u8>)
    ensures
        crlf_count(text) == 0 ==> join(lf_pieces(text), seq![10u8]) == text,
        lf_count(text) == 0 ==> join(lf_pieces(text), seq![13u8, 10u8]) == text,
    decreases text.len(),
{
    if text.len() == 0 {
        assert(join(seq![Seq::<u8>::empty()], seq![10u8]) =~= text);
        assert(join(seq![Seq::<u8>::empty()], seq![13u8, 10u8]) =~= text);
    } else {
        let t = text.drop_last();
        let c = text.last();
        let prev = lf_pieces(t);
        lemma_pieces_join(t);
        lemma_lf_pieces_len(t);
        assert(t.push(c) =~= text);
        if c != 10u8 {
            let x = prev.last().push(c);
            lemma_join_replace_last(prev, x, seq![10u8]);
            lemma_join_replace_last(prev, x, seq![13u8, 10u8]);
            lemma_join_last(prev, seq![10u8]);
            lemma_join_last(prev, seq![13u8, 10u8]);
            if crlf_count(text) == 0 {
                assert(join(lf_pieces(text), seq![10u8]) =~= text);
            }
            if lf_count(text) == 0 {
                assert(join(lf_pieces(text), seq![13u8, 10u8]) =~= text);
            }
        } else {
            let x = strip_cr(prev.last());
            let q = prev.drop_last().push(x);
            let p = q.push(Seq::<u8>::empty());
            assert(p.drop_last() =~= q);
            if crlf_count(text) == 0 {
                let sep = seq![10u8];
                assert(x == prev.last());
                assert(q =~= prev);
                lemma_join_last(p, sep);
                assert(join(p, sep) =~= join(prev, sep) + sep);
                assert(join(lf_pieces(text), sep) =~= text);
            }
            if lf_count(text) == 0 {
                let sep = seq![13u8, 10u8];
                assert(x != prev.last());
                lemma_join_replace_last(prev, x, sep);
                lemma_join_last(prev, sep);
                lemma_join_last(p, sep);
                assert(join(prev, sep) == t);
                assert(t.last() == 13u8);
                assert(join(q, sep) =~= t.drop_last());
                assert(join(p, sep) =~= t.drop_last() + sep);
                assert(join(lf_pieces(text), sep) =~= text);
            }
        }
    }
}

/// Loading bytes whose line endings are not mixed and writing the buffer back
/// gives exactly the loaded bytes.
pub proof fn lemma_load_save_round_trip(text: Seq<u8>)
    requires
        !(lf_count(text) > 0 && crlf_count(text) > 0),
    ensures
        serialize(loaded(text)) == text,
{
    let v = loaded(text);
    let sep = eol_bytes(v.line_ending);
    lemma_pieces_join(text);
    if text.len() == 0 {
        assert(join(seq![Seq::<u8>::empty()], sep) =~= Seq::<u8>::empty());
        assert(serialize(v) =~= text);
    } else {
        let p = lf_pieces(text);
        lemma_lf_pieces_len(text);
        assert(join(p, sep) == text);
        if text.last() == 10u8 {
            lemma_join_last(p, sep);
            assert(join(p, sep) =~= join(p.drop_last(), sep) + sep);
            assert(serialize(v) =~= text);
        } else {
            assert(serialize(v) =~= text + Seq::<u8>::empty());
        }
    }
}


/// `v` with its lines replaced.
pub open spec fn with_lines(v: BufferView, lines: Seq<Seq<u8>>) -> BufferView {
    BufferView { lines, line_ending: v.line_ending, trailing_newline: v.trailing_newline }
}

/// The buffer and cursor after inserting the UTF-8 bytes `text` at `pos`.
pub open spec fn insert_spec(v: BufferView, pos: Position, text: Seq<u8>) -> (
    BufferView,
    Position,
) {
    let p = clamp(v, pos);
    let line = v.lines[p.line as int];
    let k = gbyte(line, p.grapheme as int);
    let parts = lf_pieces(text);
    let n = parts.len();
    if text.len() == 0 {
        (v, p)
    } else if n == 1 {
        (
            with_lines(v, v.lines.update(p.line as int, line.take(k) + parts[0] + line.skip(k))),
            Position { line: p.line, grapheme: (p.grapheme + gcount(parts[0])) as usize },
        )
    } else {
        (
            with_lines(
                v,
                v.lines.take(p.line as int) + seq![line.take(k) + parts[0]] + parts.subrange(
                    1,
                    n - 1,
                ) + seq![parts[n - 1] + line.skip(k)] + v.lines.skip(p.line + 1),
            ),
            Position { line: (p.line + n - 1) as usize, grapheme: gcount(parts[n - 1]) as usize },
        )
    }
}

/// The UTF-8 bytes of a string.
fn str_bytes(text: &str) -> (res: Vec<u8>)
    ensures
        res@ == encode_utf8(text@),
        valid_utf8(res@),
{
    proof {
        encode_utf8_valid_utf8(text@);
    }
    slice_to_vec(text.as_bytes())
}

/// Appends copies of `src[from..to]` to `dst`.
fn push_line_copies(dst: &mut Vec<Vec<u8>>, src: &Vec<Vec<u8>>, from: usize, to: usize)
    requires
        from <= to <= src@.len(),
    ensures
        bytes_view(final(dst)@) == bytes_view(old(dst)@) + bytes_view(src@).subrange(
            from as int,
            to as int,
        ),
{
    let mut i = from;
    while i < to
        invariant
            from <= i <= to <= src@.len(),
            bytes_view(dst@) == bytes_view(old(dst)@) + bytes_view(src@).subrange(
                from as int,
                i as int,
            ),
        decreases to - i,
    {
        let line = copy_range(&src[i], 0, src[i].len());
        assert(line@ =~= src@[i as int]@);
        let ghost before = dst@;
        dst.push(line);
        assert(bytes_view(dst@) =~= bytes_view(before).push(line@));
        i = i + 1;
        assert(bytes_view(dst@) =~= bytes_view(old(dst)@) + bytes_view(src@).subrange(
            from as int,
            i as int,
        ));
    }
}

impl TextBuffer {
    /// Inserts text at `pos` and returns the cursor position after the inserted text.
    ///
    /// Newlines inside `text` split lines. Both LF and CRLF input are accepted here,
    /// but the buffer stores only line contents; file EOL style remains metadata.
    pub fn insert(&mut self, pos: Position, text: &str) -> (res: Position)
        requires
            old(self)@.wf(),
        ensures
            final(self)@.wf(),
            (final(self)@, res) == insert_spec(old(self)@, pos, encode_utf8(text@)),
    {
        let ghost v = self@;
        if text.is_empty() {
            assert(encode_utf8(text@) =~= Seq::<u8>::empty());
            return self.clamp_position(pos);
        }
        let pos = self.clamp_position(pos);
        let li = pos.line;
        assert(line_ok(v.lines[li as int]));
        let byte = grapheme_to_byte(&self.lines[li], pos.grapheme);
        proof {
            lemma_gbyte(v.lines[li as int], pos.grapheme as int);
        }
        let bytes = str_bytes(text);
        let insert_lines = split_insert_text(&bytes);
        proof {
            lemma_lf_pieces_len(bytes@);
            assert(bytes@.len() > 0);
        }
        let ghost line = v.lines[li as int];
        let ghost parts = lf_pieces(bytes@);
        let line_len = self.lines[li].len();
        let mut first = copy_range(&self.lines[li], 0, byte);
        append_bytes(&mut first, &insert_lines[0]);
        assert(first@ =~= line.take(byte as int) + parts[0]);
        proof {
            lemma_line_ok_split(line, byte as int);
            assert(line_ok(parts[0]));
            lemma_line_ok_concat(line.take(byte as int), parts[0]);
        }
        let n = insert_lines.len();
        if n == 1 {
            assert(line_ok(insert_lines@[0]@));
            let added = grapheme_count(&insert_lines[0]);
            append_bytes(&mut first, slice_subrange(&self.lines[li], byte, line_len));
            assert(first@ =~= line.take(byte as int) + parts[0] + line.skip(byte as int));
            let total = first.len();
            assert(pos.grapheme + added <= total);
            proof {
                lemma_line_ok_concat(line.take(byte as int) + parts[0], line.skip(byte as int));
            }
            self.lines.set(li, first);
            proof {
                assert(bytes_view(self.lines@) =~= v.lines.update(
                    li as int,
                    line.take(byte as int) + parts[0] + line.skip(byte as int),
                ));
                assert(self@.wf());
            }
            return Position::new(pos.line, pos.grapheme + added);
        }
        assert(line_ok(insert_lines@[n - 1]@));
        let last_count = grapheme_count(&insert_lines[n - 1]);
        let mut last = copy_range(&insert_lines[n - 1], 0, insert_lines[n - 1].len());
        append_bytes(&mut last, slice_subrange(&self.lines[li], byte, line_len));
        assert(last@ =~= parts[n - 1] + line.skip(byte as int));
        proof {
            lemma_line_ok_concat(parts[n - 1], line.skip(byte as int));
        }
        let mut new_lines: Vec<Vec<u8>> = Vec::new();
        assert(li < self.lines.len());
        push_line_copies(&mut new_lines, &self.lines, 0, li);
        assert(bytes_view(new_lines@) =~= v.lines.take(li as int));
        let ghost s1 = new_lines@;
        new_lines.push(first);
        assert(bytes_view(new_lines@) =~= bytes_view(s1).push(first@));
        push_line_copies(&mut new_lines, &insert_lines, 1, n - 1);
        let ghost s2 = new_lines@;
        new_lines.push(last);
        assert(bytes_view(new_lines@) =~= bytes_view(s2).push(last@));
        push_line_copies(&mut new_lines, &self.lines, li + 1, self.lines.len());
        assert(bytes_view(self.lines@).subrange(li + 1, self.lines@.len() as int) =~= v.lines.skip(
            li + 1,
        ));
        let total = new_lines.len();
        let ghost expected = v.lines.take(li as int) + seq![line.take(byte as int) + parts[0]]
            + parts.subrange(1, n - 1) + seq![parts[n - 1] + line.skip(byte as int)]
            + v.lines.skip(li + 1);
        assert(bytes_view(new_lines@) =~= expected);
        self.lines = new_lines;
        proof {
            assert forall|i: int| 0 <= i < expected.len() implies line_ok(#[trigger] expected[i]) by {
                if i < li {
                    assert(expected[i] == v.lines[i]);
                } else if i == li {
                } else if i < li + n - 1 {
                    assert(expected[i] == parts[i - li]);
                } else if i == li + n - 1 {
                } else {
                    assert(expected[i] == v.lines[i - n + 1]);
                }
            }
        }
        assert(pos.line + (n - 1) < total);
        Position::new(pos.line + (n - 1), last_count)
    }
}


/// The bytes between two ordered, clamped positions (line breaks as LF).
pub open spec fn range_text(v: BufferView, s: Position, e: Position) -> Seq<u8> {
    let ls = v.lines[s.line as int];
    let le = v.lines[e.line as int];
    let bs = gbyte(ls, s.grapheme as int);
    let be = gbyte(le, e.grapheme as int);
    if s.line == e.line {
        ls.subrange(bs, be)
    } else {
        join(
            seq![ls.skip(bs)] + v.lines.subrange(s.line + 1, e.line as int) + seq![le.take(be)],
            seq![10u8],
        )
    }
}

/// The buffer after deleting between two positions, and the removed bytes.
pub open spec fn delete_spec(v: BufferView, start: Position, end: Position) -> (
    BufferView,
    Seq<u8>,
) {
    let (s, e) = normalized(v, start, end);
    let ls = v.lines[s.line as int];
    let le = v.lines[e.line as int];
    let bs = gbyte(ls, s.grapheme as int);
    let be = gbyte(le, e.grapheme as int);
    if s == e {
        (v, Seq::<u8>::empty())
    } else if s.line == e.line {
        (with_lines(v, v.lines.update(s.line as int, ls.take(bs) + ls.skip(be))), range_text(v, s, e))
    } else {
        (
            with_lines(
                v,
                v.lines.take(s.line as int).push(ls.take(bs) + le.skip(be)) + v.lines.skip(
                    e.line + 1,
                ),
            ),
            range_text(v, s, e),
        )
    }
}

/// Valid UTF-8 stays valid when an LF and another valid piece are appended.
pub proof fn lemma_valid_join_step(o: Seq<u8>, x: Seq<u8>)
    requires
        valid_utf8(o),
        valid_utf8(x),
    ensures
        valid_utf8(o + seq![10u8] + x),
{
    lemma_lf_valid();
    valid_utf8_concat(o, seq![10u8]);
    valid_utf8_concat(o + seq![10u8], x);
}

/// `join` grows by one separator and line when a line is appended.
pub proof fn lemma_join_push(q: Seq<Seq<u8>>, x: Seq<u8>, sep: Seq<u8>)
    requires
        q.len() >= 1,
    ensures
        join(q.push(x), sep) == join(q, sep) + sep + x,
{
    assert(q.push(x).drop_last() =~= q);
}

/// The String whose UTF-8 encoding is `bytes`.
fn string_of(bytes: Vec<u8>) -> (res: String)
    requires
        valid_utf8(bytes@),
    ensures
        encode_utf8(res@) == bytes@,
        res@ == decode_utf8(bytes@),
{
    let ghost b = bytes@;
    proof {
        decode_utf8_encode_utf8(b);
    }
    match utf8_string(bytes) {
        Some(s) => s,
        None => String::new(),
    }
}

impl TextBuffer {
    /// Bytes between two ordered positions that are already clamped.
    fn range_bytes(&self, s: Position, e: Position) -> (res: Vec<u8>)
        requires
            self@.wf(),
            s == clamp(self@, s),
            e == clamp(self@, e),
            pos_le(s, e),
        ensures
            res@ == range_text(self@, s, e),
            valid_utf8(res@),
    {
        let ghost v = self@;
        let ghost ls = v.lines[s.line as int];
        let ghost le = v.lines[e.line as int];
        assert(line_ok(ls));
        assert(line_ok(le));
        let bs = grapheme_to_byte(&self.lines[s.line], s.grapheme);
        let be = grapheme_to_byte(&self.lines[e.line], e.grapheme);
        proof {
            lemma_gbyte(ls, s.grapheme as int);
            lemma_gbyte(le, e.grapheme as int);
        }
        if s.line == e.line {
            assert(bs <= be);
            let res = copy_range(&self.lines[s.line], bs, be);
            proof {
                vstd::utf8::is_char_boundary_start_end_of_seq(ls);
                super::unicode::lemma_sub_valid(ls, bs as int, be as int);
            }
            return res;
        }
        proof {
            lemma_line_ok_split(ls, bs as int);
            lemma_line_ok_split(le, be as int);
            lemma_lf_valid();
        }
        let mut out = copy_range(&self.lines[s.line], bs, self.lines[s.line].len());
        assert(out@ =~= ls.skip(bs as int));
        assert(join(seq![ls.skip(bs as int)], seq![10u8]) == ls.skip(bs as int));
        let mut li = s.line + 1;
        while li < e.line
            invariant
                v == self@,
                v.wf(),
                s.line < li <= e.line < v.lines.len(),
                out@ == join(
                    seq![ls.skip(bs as int)] + v.lines.subrange(s.line + 1, li as int),
                    seq![10u8],
                ),
                valid_utf8(out@),
            decreases e.line - li,
        {
            let ghost q = seq![ls.skip(bs as int)] + v.lines.subrange(s.line + 1, li as int);
            let ghost o = out@;
            out.push(10u8);
            append_bytes(&mut out, &self.lines[li]);
            proof {
                assert(line_ok(v.lines[li as int]));
                lemma_valid_join_step(o, v.lines[li as int]);
                assert(out@ =~= o + seq![10u8] + v.lines[li as int]);
                lemma_join_push(q, v.lines[li as int], seq![10u8]);
                assert(q.push(v.lines[li as int]) =~= seq![ls.skip(bs as int)] + v.lines.subrange(
                    s.line + 1,
                    li + 1,
                ));
                assert(line_ok(v.lines[li as int]));
            }
            li = li + 1;
        }
        let ghost q = seq![ls.skip(bs as int)] + v.lines.subrange(s.line + 1, e.line as int);
        let ghost o = out@;
        out.push(10u8);
        append_bytes(&mut out, slice_subrange(&self.lines[e.line], 0, be));
        proof {
            lemma_valid_join_step(o, le.take(be as int));
            assert(out@ =~= o + seq![10u8] + le.take(be as int));
            lemma_join_push(q, le.take(be as int), seq![10u8]);
        }
        out
    }
}


impl TextBuffer {
    /// Replaces lines `first..=last` by the single line `merged`.
    fn replace_span(&mut self, first: usize, last: usize, merged: Vec<u8>)
        requires
            old(self)@.wf(),
            first <= last < old(self)@.lines.len(),
            line_ok(merged@),
        ensures
            final(self)@ == with_lines(
                old(self)@,
                old(self)@.lines.take(first as int).push(merged@) + old(self)@.lines.skip(
                    last + 1,
                ),
            ),
            final(self)@.wf(),
    {
        let ghost v = self@;
        assert(last < self.lines.len());
        let mut new_lines: Vec<Vec<u8>> = Vec::new();
        push_line_copies(&mut new_lines, &self.lines, 0, first);
        let ghost s1 = new_lines@;
        let ghost m = merged@;
        new_lines.push(merged);
        assert(bytes_view(new_lines@) =~= bytes_view(s1).push(m));
        push_line_copies(&mut new_lines, &self.lines, last + 1, self.lines.len());
        let ghost expected = v.lines.take(first as int).push(m) + v.lines.skip(last + 1);
        assert(bytes_view(new_lines@) =~= expected);
        self.lines = new_lines;
        assert forall|i: int| 0 <= i < expected.len() implies line_ok(#[trigger] expected[i]) by {
            if i < first {
                assert(expected[i] == v.lines[i]);
            } else if i > first {
                assert(expected[i] == v.lines[i + (last - first)]);
            }
        }
    }
}

/// Clamping is idempotent.
pub proof fn lemma_clamp_idem(v: BufferView, p: Position)
    requires
        v.wf(),
    ensures
        clamp(v, clamp(v, p)) == clamp(v, p),
        clamp(v, p).line < v.lines.len(),
        clamp(v, p).grapheme <= gcount(v.lines[clamp(v, p).line as int]),
{
}

impl TextBuffer {
    /// Returns the text between two positions (normalized like `delete_range`),
    /// with line breaks as LF.
    pub fn text_range(&self, start: Position, end: Position) -> (res: String)
        requires
            self@.wf(),
        ensures
            encode_utf8(res@) == range_text(
                self@,
                normalized(self@, start, end).0,
                normalized(self@, start, end).1,
            ),
    {
        let (s, e) = self.normalized_range(start, end);
        proof {
            lemma_clamp_idem(self@, start);
            lemma_clamp_idem(self@, end);
        }
        let bytes = self.range_bytes(s, e);
        string_of(bytes)
    }

    /// Deletes a grapheme range and returns the removed text for undo replay.
    ///
    /// Ranges are normalized after clamping, so callers may pass reversed or
    /// out-of-bounds positions without risking panics.
    pub fn delete_range(&mut self, start: Position, end: Position) -> (res: String)
        requires
            old(self)@.wf(),
        ensures
            final(self)@.wf(),
            (final(self)@, encode_utf8(res@)) == delete_spec(old(self)@, start, end),
    {
        let ghost v = self@;
        let (s, e) = self.normalized_range(start, end);
        proof {
            lemma_clamp_idem(v, start);
            lemma_clamp_idem(v, end);
        }
        if s == e {
            let empty = String::new();
            assert(encode_utf8(empty@) =~= Seq::<u8>::empty());
            return empty;
        }
        let deleted = self.range_bytes(s, e);
        let ghost ls = v.lines[s.line as int];
        let ghost le = v.lines[e.line as int];
        assert(line_ok(ls));
        assert(line_ok(le));
        let bs = grapheme_to_byte(&self.lines[s.line], s.grapheme);
        let be = grapheme_to_byte(&self.lines[e.line], e.grapheme);
        proof {
            lemma_gbyte(ls, s.grapheme as int);
            lemma_gbyte(le, e.grapheme as int);
            lemma_line_ok_split(ls, bs as int);
            lemma_line_ok_split(le, be as int);
            lemma_line_ok_concat(ls.take(bs as int), le.skip(be as int));
        }
        let mut merged = copy_range(&self.lines[s.line], 0, bs);
        let end_len = self.lines[e.line].len();
        append_bytes(&mut merged, slice_subrange(&self.lines[e.line], be, end_len));
        assert(merged@ =~= ls.take(bs as int) + le.skip(be as int));
        assert(e.line < self.lines.len());
        self.replace_span(s.line, e.line, merged);
        if s.line == e.line {
            assert(v.lines.take(s.line as int).push(merged@) + v.lines.skip(s.line + 1)
                =~= v.lines.update(s.line as int, ls.take(bs as int) + ls.skip(be as int)));
        }
        string_of(deleted)
    }
}


/// The text of byte lines.
pub open spec fn decoded(lines: Seq<Seq<u8>>) -> Seq<Seq<char>> {
    lines.map_values(|l: Seq<u8>| decode_utf8(l))
}

/// The UTF-8 bytes of text lines.
pub open spec fn encoded(lines: Seq<Seq<char>>) -> Seq<Seq<u8>> {
    lines.map_values(|l: Seq<char>| encode_utf8(l))
}

/// The text of a vector of strings.
pub open spec fn strings_view(v: Seq<String>) -> Seq<Seq<char>> {
    v.map_values(|s: String| s@)
}

/// `lines`, or a single empty line when `lines` is empty.
pub open spec fn nonempty_lines(lines: Seq<Seq<u8>>) -> Seq<Seq<u8>> {
    if lines.len() == 0 {
        seq![Seq::<u8>::empty()]
    } else {
        lines
    }
}

/// The clamped bounds `replace_lines` works on.
pub open spec fn line_span(v: BufferView, start: usize, end_exclusive: usize) -> (int, int) {
    let s = if start <= v.lines.len() {
        start as int
    } else {
        v.lines.len() as int
    };
    let e0 = if end_exclusive <= v.lines.len() {
        end_exclusive as int
    } else {
        v.lines.len() as int
    };
    let e = if e0 >= s {
        e0
    } else {
        s
    };
    (s, e)
}

/// Text lines that can be stored: none contains a line feed.
pub open spec fn storable(lines: Seq<Seq<char>>) -> bool {
    forall|i: int| 0 <= i < lines.len() ==> no_lf(encode_utf8(#[trigger] lines[i]))
}

/// The UTF-8 bytes of a String.
pub fn string_bytes(s: &String) -> (res: Vec<u8>)
    ensures
        res@ == encode_utf8(s@),
        valid_utf8(res@),
{
    str_bytes(s.as_str())
}

impl TextBuffer {
    /// Replaces a contiguous logical line range and returns the removed lines.
    ///
    /// File-level EOL metadata (`line_ending` and `trailing_newline`) is kept:
    /// line-moving edits reorder logical lines without changing whether the
    /// file serializes with a final newline.
    pub(crate) fn replace_lines(
        &mut self,
        start: usize,
        end_exclusive: usize,
        replacement: Vec<String>,
    ) -> (res: Vec<String>)
        requires
            old(self)@.wf(),
            storable(strings_view(replacement@)),
        ensures
            final(self)@.wf(),
            strings_view(res@) == decoded(
                old(self)@.lines.subrange(
                    line_span(old(self)@, start, end_exclusive).0,
                    line_span(old(self)@, start, end_exclusive).1,
                ),
            ),
            final(self)@ == with_lines(
                old(self)@,
                nonempty_lines(
                    old(self)@.lines.take(line_span(old(self)@, start, end_exclusive).0)
                        + encoded(strings_view(replacement@)) + old(self)@.lines.skip(
                        line_span(old(self)@, start, end_exclusive).1,
                    ),
                ),
            ),
    {
        let ghost v = self@;
        let len = self.lines.len();
        let start = if start <= len {
            start
        } else {
            len
        };
        let end0 = if end_exclusive <= len {
            end_exclusive
        } else {
            len
        };
        let end = if end0 >= start {
            end0
        } else {
            start
        };
        let mut removed: Vec<String> = Vec::new();
        let mut i = start;
        while i < end
            invariant
                v == self@,
                v.wf(),
                start <= i <= end <= v.lines.len(),
                strings_view(removed@) == decoded(v.lines.subrange(start as int, i as int)),
            decreases end - i,
        {
            assert(line_ok(v.lines[i as int]));
            let text = string_of(copy_range(&self.lines[i], 0, self.lines[i].len()));
            assert(v.lines[i as int].subrange(0, v.lines[i as int].len() as int) =~= v.lines[i as int]);
            let ghost before = removed@;
            removed.push(text);
            assert(strings_view(removed@) =~= strings_view(before).push(text@));
            i = i + 1;
            assert(decoded(v.lines.subrange(start as int, i as int)) =~= decoded(
                v.lines.subrange(start as int, i - 1),
            ).push(decode_utf8(v.lines[i - 1])));
        }
        let mut new_lines: Vec<Vec<u8>> = Vec::new();
        push_line_copies(&mut new_lines, &self.lines, 0, start);
        let mut j: usize = 0;
        let ghost mid = encoded(strings_view(replacement@));
        while j < replacement.len()
            invariant
                v == self@,
                j <= replacement@.len(),
                start <= v.lines.len(),
                mid == encoded(strings_view(replacement@)),
                bytes_view(new_lines@) == v.lines.take(start as int) + mid.subrange(0, j as int),
            decreases replacement@.len() - j,
        {
            let bytes = string_bytes(&replacement[j]);
            let ghost before = new_lines@;
            new_lines.push(bytes);
            assert(bytes_view(new_lines@) =~= bytes_view(before).push(bytes@));
            j = j + 1;
            assert(mid.subrange(0, j as int) =~= mid.subrange(0, j - 1).push(mid[j - 1]));
        }
        assert(mid.subrange(0, mid.len() as int) =~= mid);
        push_line_copies(&mut new_lines, &self.lines, end, len);
        let ghost joined = v.lines.take(start as int) + mid + v.lines.skip(end as int);
        assert(bytes_view(new_lines@) =~= joined);
        if new_lines.len() == 0 {
            new_lines.push(Vec::new());
            assert(bytes_view(new_lines@) =~= nonempty_lines(joined));
        }
        self.lines = new_lines;
        proof {
            let fin = nonempty_lines(joined);
            assert forall|k: int| 0 <= k < fin.len() implies line_ok(#[trigger] fin[k]) by {
                if joined.len() == 0 {
                    assert(line_ok(Seq::<u8>::empty()));
                } else if k < start {
                    assert(fin[k] == v.lines[k]);
                } else if k < start + mid.len() {
                    assert(fin[k] == encode_utf8(replacement@[k - start]@));
                    encode_utf8_valid_utf8(replacement@[k - start]@);
                } else {
                    assert(fin[k] == v.lines[k - start - mid.len() + end]);
                }
            }
        }
        removed
    }

    /// The text of every logical line, for coarse-grained undo groups.
    pub(crate) fn lines_snapshot(&self) -> (res: Vec<String>)
        requires
            self@.wf(),
        ensures
            strings_view(res@) == decoded(self@.lines),
    {
        let ghost v = self@;
        let mut out: Vec<String> = Vec::new();
        let mut i: usize = 0;
        while i < self.lines.len()
            invariant
                v == self@,
                v.wf(),
                i <= v.lines.len(),
                strings_view(out@) == decoded(v.lines.take(i as int)),
            decreases v.lines.len() - i,
        {
            assert(line_ok(v.lines[i as int]));
            let text = string_of(copy_range(&self.lines[i], 0, self.lines[i].len()));
            assert(v.lines[i as int].subrange(0, v.lines[i as int].len() as int) =~= v.lines[i as int]);
            let ghost before = out@;
            out.push(text);
            assert(strings_view(out@) =~= strings_view(before).push(text@));
            i = i + 1;
            assert(decoded(v.lines.take(i as int)) =~= decoded(v.lines.take(i - 1)).push(
                decode_utf8(v.lines[i - 1]),
            ));
        }
        assert(v.lines.take(v.lines.len() as int) =~= v.lines);
        out
    }
}


/// A stored line followed by LF is valid UTF-8.
pub proof fn lemma_valid_line_break(line: Seq<u8>)
    requires
        line_ok(line),
    ensures
        valid_utf8(line.push(10u8)),
{
    lemma_lf_valid();
    valid_utf8_concat(line, seq![10u8]);
    assert(line.push(10u8) =~= line + seq![10u8]);
}

/// The String whose UTF-8 encoding is `bytes`.
pub(crate) fn string_from_bytes(bytes: Vec<u8>) -> (res: String)
    requires
        valid_utf8(bytes@),
    ensures
        encode_utf8(res@) == bytes@,
{
    string_of(bytes)
}

/// The stored text lines of a buffer are storable.
pub proof fn lemma_decoded_storable(lines: Seq<Seq<u8>>)
    requires
        forall|i: int| 0 <= i < lines.len() ==> line_ok(#[trigger] lines[i]),
    ensures
        storable(decoded(lines)),
        encoded(decoded(lines)) == lines,
{
    assert forall|i: int| 0 <= i < lines.len() implies encode_utf8(#[trigger] decoded(lines)[i]) == lines[i] by {
        assert(line_ok(lines[i]));
        decode_utf8_encode_utf8(lines[i]);
    }
    assert(encoded(decoded(lines)) =~= lines);
}

} // verus!
