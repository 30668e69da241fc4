//! The open documents of a session: which one is active, switching and
//! closing them with a confirmation for unsaved changes, the tab bar's
//! labels, and selecting a word or a line of the active document.

use vstd::prelude::*;
use vstd::string::*;
use vstd::utf8::*;

use crate::document::{display_name_spec, path_pieces, Document};
use crate::model::buffer::{clamp, decoded, gcount, serialize, strings_view, LineEnding};
use crate::model::editor::{select_range_spec, EditorState};
use crate::model::position::Position;
use crate::model::unicode::white_space;
use crate::session::{join_strings, joined, request_quit_spec, QuitDecision, QuitGuard, TabItem};
use crate::text::{decimal, decimal_string, grapheme_strings, text_clusters};

verus! {

broadcast use {vstd::seq::group_seq_axioms, vstd::seq_lib::group_seq_properties};

/// Whether `c` is alphabetic or numeric (`char::is_alphanumeric`).
pub uninterp spec fn alphanumeric(c: char) -> bool;

/// `char::is_whitespace`: whether `c` has the White_Space property.
#[verifier::external_body]
fn is_white_space(c: char) -> (res: bool)
    ensures
        res == white_space(c),
{
    c.is_whitespace()
}

/// `char::is_alphanumeric`.
#[verifier::external_body]
fn is_alphanumeric(c: char) -> (res: bool)
    ensures
        res == alphanumeric(c),
{
    c.is_alphanumeric()
}

/// The parts of a path that make two paths equal, as `std::path::Path`
/// compares them: whether it starts at the root, whether it starts with a
/// `.` directory, and its other pieces.
pub open spec fn path_key(path: Seq<u8>) -> (bool, bool, Seq<Seq<u8>>) {
    let root = path.len() > 0 && path[0] == 47u8;
    let current = !root && path.len() > 0 && path[0] == 46u8 && (path.len() == 1 || path[1] == 47u8);
    (root, current, path_pieces(path))
}

/// `paths` without the repetitions of a path seen earlier.
pub open spec fn deduped(paths: Seq<Seq<u8>>) -> Seq<Seq<u8>>
    decreases paths.len(),
{
    if paths.len() == 0 {
        Seq::empty()
    } else {
        let rest = deduped(paths.drop_last());
        if exists|j: int| 0 <= j < rest.len() && path_key(#[trigger] rest[j]) == path_key(paths.last()) {
            rest
        } else {
            rest.push(paths.last())
        }
    }
}

fn key_of(path: &[u8]) -> (res: (bool, bool, Vec<Vec<u8>>))
    ensures
        res.0 == path_key(path@).0,
        res.1 == path_key(path@).1,
        crate::cli::args_view(res.2@) == path_key(path@).2,
{
    let root = path.len() > 0 && path[0] == 47u8;
    let current = !root && path.len() > 0 && path[0] == 46u8 && (path.len() == 1 || path[1] == 47u8);
    (root, current, crate::document::path_pieces_exec(path))
}

fn same_pieces(a: &Vec<Vec<u8>>, b: &Vec<Vec<u8>>) -> (res: bool)
    ensures
        res == (crate::cli::args_view(a@) == crate::cli::args_view(b@)),
{
    if a.len() != b.len() {
        assert(crate::cli::args_view(a@).len() != crate::cli::args_view(b@).len());
        return false;
    }
    let mut i: usize = 0;
    while i < a.len()
        invariant
            a@.len() == b@.len(),
            i <= a@.len(),
            forall|k: int| 0 <= k < i ==> a@[k]@ == b@[k]@,
        decreases a@.len() - i,
    {
        if !crate::document::bytes_same(a[i].as_slice(), b[i].as_slice()) {
            assert(crate::cli::args_view(a@)[i as int] != crate::cli::args_view(b@)[i as int]);
            return false;
        }
        i = i + 1;
    }
    assert(crate::cli::args_view(a@) =~= crate::cli::args_view(b@));
    true
}

/// Paths in order, each only the first time it occurs (paths are compared as
/// `std::path::Path` compares them).
pub fn dedupe_paths(paths: Vec<Vec<u8>>) -> (res: Vec<Vec<u8>>)
    ensures
        crate::cli::args_view(res@) == deduped(crate::cli::args_view(paths@)),
{
    let ghost ps = crate::cli::args_view(paths@);
    let mut unique: Vec<Vec<u8>> = Vec::new();
    let mut keys: Vec<(bool, bool, Vec<Vec<u8>>)> = Vec::new();
    let mut i: usize = 0;
    assert(ps.take(0) =~= Seq::<Seq<u8>>::empty());
    while i < paths.len()
        invariant
            ps == crate::cli::args_view(paths@),
            i <= ps.len(),
            keys@.len() == unique@.len(),
            crate::cli::args_view(unique@) == deduped(ps.take(i as int)),
            forall|k: int|
                0 <= k < keys@.len() ==> (#[trigger] keys@[k]).0 == path_key(unique@[k]@).0
                    && keys@[k].1 == path_key(unique@[k]@).1 && crate::cli::args_view(keys@[k].2@)
                    == path_key(unique@[k]@).2,
        decreases ps.len() - i,
    {
        let key = key_of(paths[i].as_slice());
        let ghost u = crate::cli::args_view(unique@);
        assert(ps.take(i + 1).drop_last() =~= ps.take(i as int));
        assert(ps.take(i + 1).last() == paths@[i as int]@);
        let mut seen = false;
        let mut j: usize = 0;
        while j < keys.len()
            invariant
                j <= keys@.len(),
                i < paths@.len(),
                key.0 == path_key(paths@[i as int]@).0,
                key.1 == path_key(paths@[i as int]@).1,
                crate::cli::args_view(key.2@) == path_key(paths@[i as int]@).2,
                keys@.len() == unique@.len(),
                u == crate::cli::args_view(unique@),
                forall|k: int|
                    0 <= k < keys@.len() ==> (#[trigger] keys@[k]).0 == path_key(unique@[k]@).0
                        && keys@[k].1 == path_key(unique@[k]@).1 && crate::cli::args_view(keys@[k].2@)
                        == path_key(unique@[k]@).2,
                seen == exists|m: int| 0 <= m < j && path_key(#[trigger] u[m]) == path_key(paths@[i as int]@),
            decreases keys@.len() - j,
        {
            let k = &keys[j];
            let same = k.0 == key.0 && k.1 == key.1 && same_pieces(&k.2, &key.2);
            assert(u[j as int] == unique@[j as int]@);
            if same {
                seen = true;
            }
            proof {
                let a = path_key(u[j as int]);
                let b = path_key(paths@[i as int]@);
                if same {
                    assert(a == b);
                } else {
                    assert(a != b);
                }
            }
            j = j + 1;
        }
        if !seen {
            let ghost before = unique@;
            unique.push(paths[i].clone());
            keys.push(key);
            assert(crate::cli::args_view(unique@) =~= crate::cli::args_view(before).push(paths@[i as int]@));
        }
        i = i + 1;
    }
    assert(ps.take(ps.len() as int) =~= ps);
    unique
}

/// The open documents, the active one, the confirmation for closing one with
/// unsaved changes, and the status message.
pub struct Workspace {
    pub documents: Vec<Document>,
    pub active: usize,
    pub close_guard: QuitGuard,
    pub message: String,
}

impl Workspace {
    /// At least one document, a valid active index, and well-formed editors.
    pub open spec fn wf(&self) -> bool {
        &&& self.documents@.len() >= 1
        &&& self.active < self.documents@.len()
        &&& forall|i: int| 0 <= i < self.documents@.len() ==> (#[trigger] self.documents@[i]).editor@.wf()
    }
}

/// The label of a tab: its number, the document's name, and `[+]` when it
/// has unsaved changes.
pub open spec fn tab_label(index: nat, d: Document) -> Seq<char> {
    decimal(index + 1) + seq![':'] + display_name_spec(match d.path {
        Some(p) => Some(p@),
        None => None,
    }) + if serialize(d.editor.buffer@) != d.saved_snapshot@ {
        " [+]"@
    } else {
        Seq::empty()
    }
}

/// The class of a grapheme for word selection: white space, word
/// characters (alphanumeric or `_`), or anything else.
pub open spec fn grapheme_class(g: Seq<char>) -> int {
    if forall|i: int| 0 <= i < g.len() ==> white_space(#[trigger] g[i]) {
        0
    } else if forall|i: int| 0 <= i < g.len() ==> alphanumeric(#[trigger] g[i]) || g[i] == '_' {
        1
    } else {
        2
    }
}

/// The first grapheme index of the run of graphemes of class `c` ending
/// just before `k`.
pub open spec fn run_start(gs: Seq<Seq<char>>, c: int, k: int) -> int
    decreases k,
{
    if k <= 0 || grapheme_class(gs[k - 1]) != c {
        k
    } else {
        run_start(gs, c, k - 1)
    }
}

/// One past the last grapheme index of the run of class `c` starting at `k`.
pub open spec fn run_end(gs: Seq<Seq<char>>, c: int, k: int) -> int
    decreases gs.len() - k,
{
    if k >= gs.len() || grapheme_class(gs[k]) != c {
        k
    } else {
        run_end(gs, c, k + 1)
    }
}

fn class_of(g: &str) -> (res: u8)
    ensures
        res as int == grapheme_class(g@),
{
    let n = g.unicode_len();
    let mut all_white = true;
    let mut all_word = true;
    let mut i: usize = 0;
    while i < n
        invariant
            n == g@.len(),
            i <= n,
            all_white == forall|k: int| 0 <= k < i ==> white_space(#[trigger] g@[k]),
            all_word == forall|k: int| 0 <= k < i ==> alphanumeric(#[trigger] g@[k]) || g@[k] == '_',
        decreases n - i,
    {
        let c = g.get_char(i);
        if !is_white_space(c) {
            all_white = false;
        }
        if !(is_alphanumeric(c) || c == '_') {
            all_word = false;
        }
        i = i + 1;
    }
    if all_white {
        0
    } else if all_word {
        1
    } else {
        2
    }
}

/// The word a double click at `position` selects: the run of graphemes
/// around it sharing its class; nothing on an empty or missing line.
pub open spec fn word_range(e: EditorState, position: Position) -> Option<(Position, Position)> {
    let gs = if position.line < e.buffer.lines.len() {
        text_clusters(decode_utf8(e.buffer.lines[position.line as int]))
    } else {
        Seq::empty()
    };
    if gs.len() == 0 {
        None
    } else {
        let at = if position.grapheme < gs.len() {
            position.grapheme as int
        } else {
            gs.len() - 1
        };
        let c = grapheme_class(gs[at]);
        Some(
            (
                Position { line: position.line, grapheme: run_start(gs, c, at) as usize },
                Position { line: position.line, grapheme: run_end(gs, c, at + 1) as usize },
            ),
        )
    }
}

/// The line a triple click on `line` selects (the last line past the end),
/// with its line break.
pub open spec fn line_range(e: EditorState, line: usize) -> (Position, Position) {
    let last = e.buffer.lines.len() - 1;
    let l = if line < last {
        line as int
    } else {
        last
    };
    (
        Position { line: l as usize, grapheme: 0 },
        if l < last {
            Position { line: (l + 1) as usize, grapheme: 0 }
        } else {
            Position { line: l as usize, grapheme: gcount(e.buffer.lines[l]) as usize }
        },
    )
}

impl Workspace {
    /// Whether any document has unsaved changes.
    pub fn is_modified(&self) -> (res: bool)
        requires
            self.wf(),
        ensures
            res == exists|i: int|
                0 <= i < self.documents@.len() && serialize(#[trigger] self.documents@[i].editor.buffer@)
                    != self.documents@[i].saved_snapshot@,
    {
        let mut i: usize = 0;
        while i < self.documents.len()
            invariant
                self.wf(),
                i <= self.documents@.len(),
                forall|k: int|
                    0 <= k < i ==> serialize(#[trigger] self.documents@[k].editor.buffer@)
                        == self.documents@[k].saved_snapshot@,
            decreases self.documents@.len() - i,
        {
            if self.documents[i].is_modified() {
                return true;
            }
            i = i + 1;
        }
        false
    }

    /// Makes the next (`delta >= 0`) or previous document active, wrapping
    /// around; the close confirmation starts over.
    pub fn switch_buffer(&mut self, delta: isize)
        requires
            old(self).wf(),
        ensures
            final(self).wf(),
            final(self).documents == old(self).documents,
            old(self).documents@.len() <= 1 ==> final(self).active == old(self).active
                && final(self).close_guard == old(self).close_guard,
            old(self).documents@.len() > 1 ==> final(self).active == (if delta < 0 {
                (old(self).active + old(self).documents@.len() - 1) % (old(self).documents@.len() as int)
            } else {
                (old(self).active + 1) % (old(self).documents@.len() as int)
            }) && !final(self).close_guard.warned,
            final(self).message == old(self).message,
    {
        let len = self.documents.len();
        if len <= 1 {
            return;
        }
        self.active = if delta < 0 {
            if self.active == 0 {
                len - 1
            } else {
                self.active - 1
            }
        } else {
            if self.active + 1 == len {
                0
            } else {
                self.active + 1
            }
        };
        proof {
            let n = len as int;
            let a = old(self).active as int;
            if delta < 0 {
                if a == 0 {
                    vstd::arithmetic::div_mod::lemma_small_mod((n - 1) as nat, n as nat);
                } else {
                    vstd::arithmetic::div_mod::lemma_mod_add_multiples_vanish(a - 1, n);
                    vstd::arithmetic::div_mod::lemma_small_mod((a - 1) as nat, n as nat);
                }
            } else {
                if a + 1 == n {
                    vstd::arithmetic::div_mod::lemma_mod_self_0(n);
                } else {
                    vstd::arithmetic::div_mod::lemma_small_mod((a + 1) as nat, n as nat);
                }
            }
        }
        self.close_guard.reset();
    }

    /// Closes the active document: with unsaved changes the first request
    /// only warns; closing the last document quits.
    pub fn close_active_buffer(&mut self) -> (res: QuitDecision)
        requires
            old(self).wf(),
        ensures
            final(self).wf(),
            ({
                let d = old(self).documents@[old(self).active as int];
                let modified = serialize(d.editor.buffer@) != d.saved_snapshot@;
                let (g, decision) = request_quit_spec(old(self).close_guard, modified);
                if decision == QuitDecision::Continue {
                    res == QuitDecision::Continue && final(self).documents == old(self).documents
                        && final(self).active == old(self).active && final(self).close_guard == g
                        && final(self).message@ == "unsaved changes; close again to discard"@
                } else if old(self).documents@.len() == 1 {
                    res == QuitDecision::Quit && final(self).documents == old(self).documents
                        && final(self).active == old(self).active && final(self).close_guard == g
                        && final(self).message == old(self).message
                } else {
                    &&& res == QuitDecision::Continue
                    &&& final(self).documents@ == old(self).documents@.remove(old(self).active as int)
                    &&& final(self).active == (if old(self).active < final(self).documents@.len() {
                        old(self).active as int
                    } else {
                        final(self).documents@.len() - 1
                    })
                    &&& !final(self).close_guard.warned
                    &&& final(self).message == old(self).message
                }
            }),
    {
        let modified = self.documents[self.active].is_modified();
        if self.close_guard.request_quit(modified) == QuitDecision::Continue {
            let m = "unsaved changes; close again to discard";
            proof {
                reveal_strlit("unsaved changes; close again to discard");
            }
            self.message = m.to_owned();
            return QuitDecision::Continue;
        }
        if self.documents.len() == 1 {
            return QuitDecision::Quit;
        }
        let ghost before = self.documents@;
        let _closed = self.documents.remove(self.active);
        assert forall|i: int| 0 <= i < self.documents@.len() implies (#[trigger] self.documents@[i]).editor@.wf() by {
            if i < old(self).active {
                assert(self.documents@[i] == before[i]);
            } else {
                assert(self.documents@[i] == before[i + 1]);
            }
        }
        if self.active >= self.documents.len() {
            self.active = self.documents.len() - 1;
        }
        self.close_guard.reset();
        QuitDecision::Continue
    }

    /// The tab bar's entries, one per document.
    pub fn tab_items(&self) -> (res: Vec<TabItem>)
        requires
            self.wf(),
        ensures
            res@.len() == self.documents@.len(),
            forall|i: int|
                0 <= i < res@.len() ==> (#[trigger] res@[i]).label@ == tab_label(i as nat, self.documents@[i])
                    && res@[i].active == (i == self.active),
    {
        let mut items: Vec<TabItem> = Vec::new();
        let mut i: usize = 0;
        let marker = " [+]";
        let colon = ":";
        proof {
            reveal_strlit(" [+]");
            reveal_strlit(":");
            assert(colon@ =~= seq![':']);
        }
        while i < self.documents.len()
            invariant
                self.wf(),
                i <= self.documents@.len(),
                items@.len() == i,
                marker@ == " [+]"@,
                colon@ == seq![':'],
                forall|k: int|
                    0 <= k < i ==> (#[trigger] items@[k]).label@ == tab_label(k as nat, self.documents@[k])
                        && items@[k].active == (k == self.active),
            decreases self.documents@.len() - i,
        {
            let document = &self.documents[i];
            let mut label = decimal_string(i + 1);
            label.append(colon);
            label.append(document.display_name().as_str());
            if document.is_modified() {
                label.append(marker);
            }
            assert(label@ =~= tab_label(i as nat, self.documents@[i as int]));
            items.push(TabItem { label, active: i == self.active });
            i = i + 1;
        }
        items
    }

    /// Selects the run of graphemes around `position` that share its class
    /// (white space, word characters, or other), on the active document.
    pub fn select_word_at(&mut self, position: Position)
        requires
            old(self).wf(),
        ensures
            final(self).wf(),
            final(self).active == old(self).active,
            final(self).close_guard == old(self).close_guard,
            final(self).message == old(self).message,
            final(self).documents@.len() == old(self).documents@.len(),
            forall|i: int|
                0 <= i < final(self).documents@.len() && i != final(self).active ==> #[trigger] final(self).documents@[i] == old(self).documents@[i],
            ({
                let d = old(self).documents@[old(self).active as int];
                let d2 = final(self).documents@[final(self).active as int];
                match word_range(d.editor@, position) {
                    None => d2 == d,
                    Some((start, end)) => {
                        &&& d2.editor@ == select_range_spec(d.editor@, start, end)
                        &&& d2 == (Document { editor: d2.editor, ..d })
                    },
                }
            }),
    {
        let active = self.active;
        let line = match self.documents[active].editor.buffer.line(position.line) {
            Some(text) => text,
            None => return ,
        };
        proof {
            encode_utf8_decode_utf8(line@);
        }
        let graphemes = grapheme_strings(line);
        let ghost gs = strings_view(graphemes@);
        let n = graphemes.len();
        if n == 0 {
            return ;
        }
        let at = if position.grapheme < n {
            position.grapheme
        } else {
            n - 1
        };
        let target = class_of(graphemes[at].as_str());
        assert(gs[at as int] == graphemes@[at as int]@);
        let mut start = at;
        while start > 0 && class_of(graphemes[start - 1].as_str()) == target
            invariant
                start <= at,
                at < n,
                n == graphemes@.len(),
                gs == strings_view(graphemes@),
                run_start(gs, target as int, start as int) == run_start(gs, target as int, at as int),
            decreases start,
        {
            assert(gs[start - 1] == graphemes@[start - 1]@);
            start = start - 1;
        }
        proof {
            if start > 0 {
                assert(gs[start - 1] == graphemes@[start - 1]@);
            }
        }
        let mut end = at + 1;
        while end < n && class_of(graphemes[end].as_str()) == target
            invariant
                at < end <= n,
                n == graphemes@.len(),
                gs == strings_view(graphemes@),
                run_end(gs, target as int, end as int) == run_end(gs, target as int, at + 1),
            decreases n - end,
        {
            assert(gs[end as int] == graphemes@[end as int]@);
            end = end + 1;
        }
        proof {
            if end < n {
                assert(gs[end as int] == graphemes@[end as int]@);
            }
        }
        let ghost before = self.documents@;
        let mut document = self.documents.remove(active);
        document.editor.select_range(Position::new(position.line, start), Position::new(position.line, end));
        self.documents.insert(active, document);
        assert forall|i: int| 0 <= i < self.documents@.len() && i != active implies #[trigger] self.documents@[i] == before[i] by {
        }
        assert forall|i: int| 0 <= i < self.documents@.len() implies (#[trigger] self.documents@[i]).editor@.wf() by {
            if i != active {
                assert(self.documents@[i] == before[i]);
            }
        }
    }

    /// Selects line `line` (the last line when past the end) with its line
    /// break, on the active document.
    pub fn select_line_at(&mut self, line: usize)
        requires
            old(self).wf(),
        ensures
            final(self).wf(),
            final(self).active == old(self).active,
            final(self).close_guard == old(self).close_guard,
            final(self).message == old(self).message,
            final(self).documents@.len() == old(self).documents@.len(),
            forall|i: int|
                0 <= i < final(self).documents@.len() && i != final(self).active ==> #[trigger] final(self).documents@[i] == old(self).documents@[i],
            ({
                let d = old(self).documents@[old(self).active as int];
                let d2 = final(self).documents@[final(self).active as int];
                &&& d2.editor@ == select_range_spec(d.editor@, line_range(d.editor@, line).0, line_range(d.editor@, line).1)
                &&& d2 == (Document { editor: d2.editor, ..d })
            }),
    {
        let active = self.active;
        let last = self.documents[active].editor.buffer.line_count() - 1;
        let l = if line < last {
            line
        } else {
            last
        };
        let end = if l < last {
            Position::new(l + 1, 0)
        } else {
            Position::new(l, self.documents[active].editor.buffer.grapheme_count(l))
        };
        let ghost before = self.documents@;
        let mut document = self.documents.remove(active);
        document.editor.select_range(Position::new(l, 0), end);
        self.documents.insert(active, document);
        assert forall|i: int| 0 <= i < self.documents@.len() implies (#[trigger] self.documents@[i]).editor@.wf() by {
            if i != active {
                assert(self.documents@[i] == before[i]);
            }
        }
    }
}

/// A fresh unnamed document: one empty line, nothing to undo, never saved.
pub open spec fn fresh_unnamed(d: Document) -> bool {
    &&& d.path is None
    &&& d.editor@.wf()
    &&& d.editor@.buffer.lines == seq![Seq::<u8>::empty()]
    &&& d.editor@.buffer.line_ending == LineEnding::Lf
    &&& d.editor@.buffer.trailing_newline
    &&& d.editor@.cursor == (Position { line: 0, grapheme: 0 })
    &&& d.editor@.selection is None
    &&& d.editor@.undo.undo.len() == 0
    &&& d.editor@.undo.redo.len() == 0
    &&& d.saved_snapshot@ == serialize(d.editor.buffer@)
    &&& d.saved_mtime is None
    &&& !d.readonly
}

impl Workspace {
    /// The session over the opened `documents` (a fresh unnamed one when
    /// none was opened), the first active, with the startup `notes` joined
    /// by "; " as the message.
    pub fn open(documents: Vec<Document>, notes: &[String]) -> (res: Workspace)
        requires
            forall|i: int| 0 <= i < documents@.len() ==> (#[trigger] documents@[i]).editor@.wf(),
        ensures
            res.wf(),
            res.active == 0,
            !res.close_guard.warned,
            res.message@ == joined(strings_view(notes@), "; "@),
            documents@.len() > 0 ==> res.documents@ == documents@,
            documents@.len() == 0 ==> res.documents@.len() == 1 && fresh_unnamed(res.documents@[0]),
    {
        let mut documents = documents;
        if documents.len() == 0 {
            documents.push(Document::unnamed());
        }
        let message = join_strings(notes, "; ");
        Workspace { documents, active: 0, close_guard: QuitGuard { warned: false }, message }
    }
}

/// The startup notes for an opened file named `name`: new, mixed line
/// endings, opened read-only as a large file, in that order.
pub open spec fn load_notes_spec(name: Seq<char>, is_new: bool, mixed: bool, readonly: bool) -> Seq<Seq<char>> {
    (if is_new {
        seq![name + ": new file"@]
    } else {
        Seq::empty()
    }) + (if mixed {
        seq![name + ": mixed line endings"@]
    } else {
        Seq::empty()
    }) + (if readonly {
        seq![name + ": large file (>10 MB); opened read-only"@]
    } else {
        Seq::empty()
    })
}

fn note(name: &str, tail: &str) -> (res: String)
    ensures
        res@ == name@ + tail@,
{
    let mut s = name.to_owned();
    s.append(tail);
    s
}

/// The notes shown for an opened file.
pub fn load_notes(name: &str, is_new: bool, mixed: bool, readonly: bool) -> (res: Vec<String>)
    ensures
        strings_view(res@) == load_notes_spec(name@, is_new, mixed, readonly),
{
    proof {
        reveal_strlit(": new file");
        reveal_strlit(": mixed line endings");
        reveal_strlit(": large file (>10 MB); opened read-only");
    }
    let mut notes: Vec<String> = Vec::new();
    if is_new {
        notes.push(note(name, ": new file"));
    }
    let ghost a = strings_view(notes@);
    if mixed {
        notes.push(note(name, ": mixed line endings"));
    }
    let ghost b = strings_view(notes@);
    if readonly {
        notes.push(note(name, ": large file (>10 MB); opened read-only"));
    }
    assert(strings_view(notes@) =~= load_notes_spec(name@, is_new, mixed, readonly));
    notes
}

} // verus!
