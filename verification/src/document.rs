//! Per-buffer document state: the editor, its viewport, the bytes last saved
//! and the file time last seen. Reading and writing files is left to the
//! caller; this module decides whether a save may go ahead and records one.

use vstd::prelude::*;
use vstd::string::*;
use vstd::utf8::*;

use crate::model::buffer::{serialize, TextBuffer};
use crate::model::editor::EditorCore;
use crate::model::position::Position;
use crate::model::unicode::utf8_str;
use crate::view::EditorView;

verus! {

broadcast use {vstd::seq::group_seq_axioms, vstd::seq_lib::group_seq_properties};

/// Why a save did not happen.
#[derive(Debug)]
pub enum SaveError {
    /// The buffer has never been saved to a path.
    NoPath,
    /// The document is read-only (large file protection), even when forced.
    Readonly,
    /// The file on disk changed since this document last read or wrote it.
    Conflict,
    /// Writing failed, with the system's message.
    Io(String),
}

impl SaveError {
    /// The message shown for this error.
    pub fn message(&self) -> (res: String)
        ensures
            res@ == match self {
                SaveError::NoPath => "save as: no path set"@,
                SaveError::Readonly => "read-only buffer (large file)"@,
                SaveError::Conflict => "file changed on disk; save again to overwrite"@,
                SaveError::Io(m) => m@,
            },
    {
        proof {
            reveal_strlit("save as: no path set");
            reveal_strlit("read-only buffer (large file)");
            reveal_strlit("file changed on disk; save again to overwrite");
        }
        match self {
            SaveError::NoPath => "save as: no path set".to_owned(),
            SaveError::Readonly => "read-only buffer (large file)".to_owned(),
            SaveError::Conflict => "file changed on disk; save again to overwrite".to_owned(),
            SaveError::Io(m) => m.clone(),
        }
    }
}

/// A buffer with what travels with it.
pub struct Document {
    /// The file's path as raw bytes, when it has one.
    pub path: Option<Vec<u8>>,
    pub editor: EditorCore,
    pub view: EditorView,
    /// The bytes as last loaded or saved.
    pub saved_snapshot: Vec<u8>,
    /// The file's modification time (nanoseconds from the Unix epoch) as of
    /// the last open or save; `None` for a buffer never backed by a file.
    pub saved_mtime: Option<i128>,
    /// True for files opened over the large-file limit.
    pub readonly: bool,
}

/// The last `/`-separated piece of a path that is neither empty nor `.`,
/// unless it is `..`: the file name `std::path::Path::file_name` gives.
pub open spec fn file_name_spec(path: Seq<u8>) -> Option<Seq<u8>> {
    let pieces = path_pieces(path);
    if pieces.len() == 0 || pieces.last() == seq![46u8, 46u8] {
        None
    } else {
        Some(pieces.last())
    }
}

/// `pieces` with `piece` added unless it is empty or `.`.
pub open spec fn keep_piece(pieces: Seq<Seq<u8>>, piece: Seq<u8>) -> Seq<Seq<u8>> {
    if piece.len() == 0 || piece == seq![46u8] {
        pieces
    } else {
        pieces.push(piece)
    }
}

/// The pieces of `path` followed by the unfinished piece `tail`.
pub open spec fn pieces_with(path: Seq<u8>, tail: Seq<u8>) -> Seq<Seq<u8>>
    decreases path.len(),
{
    if path.len() == 0 {
        keep_piece(Seq::empty(), tail)
    } else if path.last() == 47u8 {
        keep_piece(pieces_with(path.drop_last(), Seq::empty()), tail)
    } else {
        pieces_with(path.drop_last(), seq![path.last()] + tail)
    }
}

/// The pieces of a path between `/`, without empty pieces and `.`.
pub open spec fn path_pieces(path: Seq<u8>) -> Seq<Seq<u8>> {
    pieces_with(path, Seq::empty())
}

/// Slash-free text moves from the path into the unfinished piece.
proof fn lemma_pieces_move(x: Seq<u8>, q: Seq<u8>, tail: Seq<u8>)
    requires
        forall|i: int| 0 <= i < q.len() ==> q[i] != 47u8,
    ensures
        pieces_with(x + q, tail) == pieces_with(x, q + tail),
    decreases q.len(),
{
    if q.len() == 0 {
        assert(x + q =~= x);
        assert(q + tail =~= tail);
    } else {
        let y = x + q;
        assert(y.drop_last() =~= x + q.drop_last());
        assert(y.last() == q.last());
        lemma_pieces_move(x, q.drop_last(), seq![q.last()] + tail);
        assert(q.drop_last() + (seq![q.last()] + tail) =~= q + tail);
    }
}

/// The pieces of `x` with a `/` at `k` (or none, `k == -1`) and no `/`
/// after it: those before the `/`, then the piece after it.
proof fn lemma_pieces_split(x: Seq<u8>, k: int)
    requires
        -1 <= k < x.len(),
        k >= 0 ==> x[k] == 47u8,
        forall|i: int| k < i < x.len() ==> x[i] != 47u8,
    ensures
        path_pieces(x) == keep_piece(
            if k >= 0 {
                path_pieces(x.take(k))
            } else {
                Seq::empty()
            },
            x.skip(k + 1),
        ),
{
    let q = x.skip(k + 1);
    let head = x.take(k + 1);
    assert(head + q =~= x);
    assert forall|i: int| 0 <= i < q.len() implies q[i] != 47u8 by {
        assert(q[i] == x[k + 1 + i]);
    }
    lemma_pieces_move(head, q, Seq::empty());
    assert(q + Seq::<u8>::empty() =~= q);
    if k >= 0 {
        assert(head.drop_last() =~= x.take(k));
        assert(head.last() == 47u8);
    } else {
        assert(head =~= Seq::<u8>::empty());
    }
}

/// The name shown for a document: its file name, or `[No Name]` without a
/// path or when the name is not UTF-8.
pub open spec fn display_name_spec(path: Option<Seq<u8>>) -> Seq<char> {
    match path {
        Some(p) => match file_name_spec(p) {
            Some(name) => if valid_utf8(name) {
                decode_utf8(name)
            } else {
                "[No Name]"@
            },
            None => "[No Name]"@,
        },
        None => "[No Name]"@,
    }
}

/// The file name of a path, as `std::path::Path::file_name` finds it.
pub fn file_name(path: &[u8]) -> (res: Option<Vec<u8>>)
    ensures
        match file_name_spec(path@) {
            Some(name) => res is Some && res.unwrap()@ == name,
            None => res is None,
        },
{
    let ghost p0 = path@;
    let mut end: usize = path.len();
    assert(p0.take(end as int) =~= p0);
    while end > 0
        invariant
            end <= path@.len(),
            p0 == path@,
            path_pieces(p0) == path_pieces(p0.take(end as int)),
        decreases end,
    {
        let ghost cur = p0.take(end as int);
        let mut k: usize = end;
        while k > 0 && path[k - 1] != 47u8
            invariant
                k <= end,
                end <= path@.len(),
                p0 == path@,
                forall|i: int| k <= i < end ==> path@[i] != 47u8,
            decreases k,
        {
            k = k - 1;
        }
        proof {
            lemma_pieces_split(cur, k - 1);
            if k > 0 {
                assert(cur.take(k - 1) =~= p0.take(k - 1));
            }
        }
        assert(cur.skip(k as int) =~= p0.subrange(k as int, end as int));
        let piece_len = end - k;
        if piece_len == 0 || (piece_len == 1 && path[k] == 46u8) {
            proof {
                if piece_len == 1 {
                    assert(p0.subrange(k as int, end as int) =~= seq![46u8]);
                }
                if k == 0 {
                    assert(p0.take(0) =~= Seq::<u8>::empty());
                }
            }
            end = if k > 0 {
                k - 1
            } else {
                0
            };
        } else {
            let piece = vstd::slice::slice_to_vec(vstd::slice::slice_subrange(path, k, end));
            proof {
                if piece_len == 1 {
                    assert(piece@[0] != 46u8);
                    assert(piece@ != seq![46u8]);
                }
            }
            if piece_len == 2 && path[k] == 46u8 && path[k + 1] == 46u8 {
                assert(piece@ =~= seq![46u8, 46u8]);
                return None;
            }
            proof {
                if piece_len == 2 {
                    assert(piece@ != seq![46u8, 46u8]) by {
                        if piece@ == seq![46u8, 46u8] {
                            assert(piece@[0] == 46u8 && piece@[1] == 46u8);
                        }
                    }
                }
            }
            return Some(piece);
        }
    }
    assert(p0.take(0) =~= Seq::<u8>::empty());
    None
}

/// Whether two byte strings are equal.
pub fn bytes_same(a: &[u8], b: &[u8]) -> (res: bool)
    ensures
        res == (a@ == b@),
{
    if a.len() != b.len() {
        return false;
    }
    let mut i: usize = 0;
    while i < a.len()
        invariant
            a@.len() == b@.len(),
            i <= a@.len(),
            forall|k: int| 0 <= k < i ==> a@[k] == b@[k],
        decreases a@.len() - i,
    {
        if a[i] != b[i] {
            assert(a@[i as int] != b@[i as int]);
            return false;
        }
        i = i + 1;
    }
    assert(a@ =~= b@);
    true
}

/// The pieces of a path between `/`, without empty pieces and `.`.
pub fn path_pieces_exec(path: &[u8]) -> (res: Vec<Vec<u8>>)
    ensures
        crate::cli::args_view(res@) == path_pieces(path@),
{
    let ghost p0 = path@;
    let mut pieces: Vec<Vec<u8>> = Vec::new();
    let mut start: usize = 0;
    let mut i: usize = 0;
    assert(crate::cli::args_view(pieces@) =~= Seq::<Seq<u8>>::empty());
    while i < path.len()
        invariant
            p0 == path@,
            start <= i <= p0.len(),
            start > 0 ==> p0[start - 1] == 47u8,
            forall|k: int| start <= k < i ==> p0[k] != 47u8,
            crate::cli::args_view(pieces@) == (if start > 0 {
                pieces_with(p0.take(start - 1), Seq::empty())
            } else {
                Seq::empty()
            }),
        decreases p0.len() - i,
    {
        let ghost before = pieces@;
        if path[i] == 47u8 {
            let piece = vstd::slice::slice_to_vec(vstd::slice::slice_subrange(path, start, i));
            let is_dot = piece.len() == 1 && piece[0] == 46u8;
            proof {
                lemma_pieces_split_open(p0, start as int, i as int);
                if piece@ == seq![46u8] {
                    assert(is_dot);
                }
                if is_dot {
                    assert(piece@ =~= seq![46u8]);
                }
            }
            if piece.len() > 0 && !is_dot {
                pieces.push(piece);
                assert(crate::cli::args_view(pieces@) =~= crate::cli::args_view(before).push(piece@));
            }
            start = i + 1;
        }
        i = i + 1;
    }
    assert(p0.take(p0.len() as int) =~= p0);
    proof {
        lemma_pieces_split_open(p0, start as int, p0.len() as int);
    }
    let ghost before = pieces@;
    let piece = vstd::slice::slice_to_vec(vstd::slice::slice_subrange(path, start, path.len()));
    if piece.len() > 0 && !(piece.len() == 1 && piece[0] == 46u8) {
        pieces.push(piece);
        assert(crate::cli::args_view(pieces@) =~= crate::cli::args_view(before).push(piece@));
    } else {
        proof {
            if piece.len() == 1 {
                assert(piece@ =~= seq![46u8]);
            }
        }
    }
    pieces
}

/// The pieces of `p.take(e)` when no `/` follows position `s`: those of
/// `p.take(s)` and then the piece `p[s..e]`.
proof fn lemma_pieces_split_open(p: Seq<u8>, s: int, e: int)
    requires
        0 <= s <= e <= p.len(),
        s > 0 ==> p[s - 1] == 47u8,
        forall|k: int| s <= k < e ==> p[k] != 47u8,
    ensures
        pieces_with(p.take(e), Seq::empty()) == keep_piece(
            if s > 0 {
                pieces_with(p.take(s - 1), Seq::empty())
            } else {
                Seq::empty()
            },
            p.subrange(s, e),
        ),
{
    let x = p.take(e);
    lemma_pieces_split(x, s - 1);
    if s > 0 {
        assert(x.take(s - 1) =~= p.take(s - 1));
    }
    assert(x.skip(s) =~= p.subrange(s, e));
}

/// Files larger than this many bytes open read-only.
pub const LARGE_FILE_BYTES: u64 = 10485760;

/// Whether a file of `len` bytes opens read-only.
pub fn opens_read_only(len: u64) -> (res: bool)
    ensures
        res == (len > LARGE_FILE_BYTES),
{
    len > LARGE_FILE_BYTES
}

impl Document {
    /// A document around `buffer`, saved as it is.
    pub fn from_buffer(path: Option<Vec<u8>>, buffer: TextBuffer) -> (res: Self)
        requires
            buffer@.wf(),
        ensures
            res.path == path,
            res.editor.buffer@ == buffer@,
            res.editor@.wf(),
            res.editor@.cursor == (Position { line: 0, grapheme: 0 }),
            res.editor@.preferred_grapheme == 0,
            res.editor@.selection is None,
            res.editor@.undo.undo.len() == 0,
            res.editor@.undo.redo.len() == 0,
            !res.editor@.undo.force_boundary,
            res.view == (EditorView { top_line: 0, left_col: 0, top_segment: 0 }),
            res.saved_snapshot@ == serialize(buffer@),
            res.saved_mtime is None,
            !res.readonly,
    {
        let saved_snapshot = buffer.to_bytes();
        Document {
            path,
            editor: EditorCore::new(buffer),
            view: EditorView { top_line: 0, left_col: 0, top_segment: 0 },
            saved_snapshot,
            saved_mtime: None,
            readonly: false,
        }
    }

    /// An empty document without a path.
    pub fn unnamed() -> (res: Self)
        ensures
            res.path is None,
            res.editor@.wf(),
            res.editor@.buffer.lines == seq![Seq::<u8>::empty()],
            res.editor@.buffer.line_ending == crate::model::buffer::LineEnding::Lf,
            res.editor@.buffer.trailing_newline,
            res.editor@.cursor == (Position { line: 0, grapheme: 0 }),
            res.editor@.preferred_grapheme == 0,
            res.editor@.selection is None,
            res.editor@.undo.undo.len() == 0,
            res.editor@.undo.redo.len() == 0,
            !res.editor@.undo.force_boundary,
            res.view == (EditorView { top_line: 0, left_col: 0, top_segment: 0 }),
            res.saved_snapshot@ == serialize(res.editor.buffer@),
            res.saved_mtime is None,
            !res.readonly,
    {
        Self::from_buffer(None, TextBuffer::default())
    }

    /// Whether the buffer differs from what was last loaded or saved.
    pub fn is_modified(&self) -> (res: bool)
        requires
            self.editor@.wf(),
        ensures
            res == (serialize(self.editor.buffer@) != self.saved_snapshot@),
    {
        let bytes = self.editor.buffer.to_bytes();
        if bytes.len() != self.saved_snapshot.len() {
            return true;
        }
        let mut i: usize = 0;
        while i < bytes.len()
            invariant
                bytes@ == serialize(self.editor.buffer@),
                bytes@.len() == self.saved_snapshot@.len(),
                i <= bytes@.len(),
                forall|k: int| 0 <= k < i ==> bytes@[k] == self.saved_snapshot@[k],
            decreases bytes@.len() - i,
        {
            if bytes[i] != self.saved_snapshot[i] {
                assert(bytes@[i as int] != self.saved_snapshot@[i as int]);
                return true;
            }
            i = i + 1;
        }
        assert(bytes@ =~= self.saved_snapshot@);
        false
    }

    /// Whether a save may write now: never for a read-only document, never
    /// without a path, and, unless `force`, not when the file's current time
    /// (`None` when nothing is on disk) differs from the one last seen.
    pub fn save_check(&self, force: bool, current_mtime: Option<i128>) -> (res: Result<(), SaveError>)
        ensures
            self.readonly ==> res matches Err(SaveError::Readonly),
            !self.readonly && self.path is None ==> res matches Err(SaveError::NoPath),
            !self.readonly && self.path is Some ==> (res matches Err(SaveError::Conflict) <==> (!force
                && self.saved_mtime is Some && current_mtime is Some && self.saved_mtime != current_mtime)),
            !self.readonly && self.path is Some ==> (res is Ok || res matches Err(SaveError::Conflict)),
    {
        if self.readonly {
            return Err(SaveError::Readonly);
        }
        if self.path.is_none() {
            return Err(SaveError::NoPath);
        }
        if !force {
            match (self.saved_mtime, current_mtime) {
                (Some(expected), Some(current)) => {
                    if expected != current {
                        return Err(SaveError::Conflict);
                    }
                },
                _ => {},
            }
        }
        Ok(())
    }

    /// Records a completed save: the buffer's bytes and the file's new time.
    pub fn mark_saved(&mut self, mtime: i128)
        requires
            old(self).editor@.wf(),
        ensures
            final(self).saved_snapshot@ == serialize(old(self).editor.buffer@),
            final(self).saved_mtime == Some(mtime),
            final(self).path == old(self).path,
            final(self).readonly == old(self).readonly,
            final(self).editor == old(self).editor,
            final(self).view == old(self).view,
    {
        self.saved_snapshot = self.editor.buffer.to_bytes();
        self.saved_mtime = Some(mtime);
    }

    /// The name shown for the document.
    pub fn display_name(&self) -> (res: String)
        ensures
            res@ == display_name_spec(match self.path {
                Some(p) => Some(p@),
                None => None,
            }),
    {
        let none = "[No Name]";
        proof {
            reveal_strlit("[No Name]");
        }
        match &self.path {
            Some(path) => match file_name(path.as_slice()) {
                Some(name) => match utf8_str(name.as_slice()) {
                    Some(text) => {
                        proof {
                            encode_utf8_decode_utf8(text@);
                        }
                        text.to_owned()
                    },
                    None => none.to_owned(),
                },
                None => none.to_owned(),
            },
            None => none.to_owned(),
        }
    }
}

} // verus!
