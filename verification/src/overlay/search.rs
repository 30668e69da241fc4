//! Search and replace overlay: its query, matches and current match, and how
//! each key edits them and drives the editor's selection.

use vstd::prelude::*;
use vstd::string::*;
use vstd::utf8::encode_utf8;

use crate::key::{Key, KeyEvent, Modifiers};
use crate::model::editor::{replace_ranges_spec, select_range_spec, EditorCore, EditorState};
use crate::model::position::Position;
use crate::model::search::{
    find_matches, find_matches_spec, next_match_from, next_match_spec, previous_match_from,
    previous_match_spec,
};
use crate::overlay::palette_box::{clip_text, clipped, drawn, pad_text, padded, DrawnText, TextStyle};
use crate::overlay::prompt::capped_at;
use crate::text::{decimal, decimal_string, pop_char, push_char};

verus! {

broadcast use {vstd::seq::group_seq_axioms, vstd::seq_lib::group_seq_properties};

/// Which input line of the overlay receives typing.
#[derive(Debug, Clone, Copy, PartialEq, Eq, Structural)]
pub enum SearchFocus {
    Search,
    Replace,
}

#[derive(Debug, Clone)]
pub struct SearchOverlay {
    pub visible: bool,
    pub query: String,
    pub replace_text: String,
    pub case_sensitive: bool,
    pub replace_mode: bool,
    pub focus: SearchFocus,
    pub current: Option<usize>,
    pub matches: Vec<(Position, Position)>,
}

/// The abstract state of a [`SearchOverlay`].
pub struct SearchState {
    pub visible: bool,
    pub query: Seq<char>,
    pub replace_text: Seq<char>,
    pub case_sensitive: bool,
    pub replace_mode: bool,
    pub focus: SearchFocus,
    pub current: Option<usize>,
    pub matches: Seq<(Position, Position)>,
}

impl View for SearchOverlay {
    type V = SearchState;

    open spec fn view(&self) -> SearchState {
        SearchState {
            visible: self.visible,
            query: self.query@,
            replace_text: self.replace_text@,
            case_sensitive: self.case_sensitive,
            replace_mode: self.replace_mode,
            focus: self.focus,
            current: self.current,
            matches: self.matches@,
        }
    }
}

impl Default for SearchOverlay {
    fn default() -> (res: Self)
        ensures
            !res.visible,
            res.query@.len() == 0,
            res.replace_text@.len() == 0,
            !res.case_sensitive,
            !res.replace_mode,
            res.focus == SearchFocus::Search,
            res.current is None,
            res.matches@.len() == 0,
    {
        SearchOverlay {
            visible: false,
            query: String::new(),
            replace_text: String::new(),
            case_sensitive: false,
            replace_mode: false,
            focus: SearchFocus::Search,
            current: None,
            matches: Vec::new(),
        }
    }
}

/// The editor with match `current` selected, when there is one.
pub open spec fn selected_match(e: EditorState, matches: Seq<(Position, Position)>, current: Option<usize>) -> EditorState {
    match current {
        Some(i) => if i < matches.len() {
            select_range_spec(e, matches[i as int].0, matches[i as int].1)
        } else {
            e
        },
        None => e,
    }
}

/// `s2`/`e2` after searching again from the cursor: the matches of the query
/// in the buffer, the first one at or after the cursor (wrapping) as current
/// and selected.
pub open spec fn refreshed(s: SearchState, e: EditorState, s2: SearchState, e2: EditorState) -> bool {
    &&& s2 == SearchState {
        matches: find_matches_spec(e.buffer, encode_utf8(s.query), s.case_sensitive),
        current: s2.current,
        ..s
    }
    &&& (s2.matches.len() == 0 ==> s2.current is None)
    &&& (s2.matches.len() > 0 ==> (s2.current matches Some(i) && next_match_spec(s2.matches, e.cursor, i as int)))
    &&& e2 == selected_match(e, s2.matches, s2.current)
}

/// `s2`/`e2` after searching again and picking the last match before the
/// cursor (wrapping) as current.
pub open spec fn refreshed_backward(s: SearchState, e: EditorState, s2: SearchState, e2: EditorState) -> bool {
    &&& s2 == SearchState {
        matches: find_matches_spec(e.buffer, encode_utf8(s.query), s.case_sensitive),
        current: s2.current,
        ..s
    }
    &&& (s2.matches.len() == 0 ==> s2.current is None)
    &&& (s2.matches.len() > 0 ==> (s2.current matches Some(i) && previous_match_spec(s2.matches, e.cursor, i as int)))
    &&& e2 == selected_match(e, s2.matches, s2.current)
}

/// The current match moved by `delta` (wrapping) and selected.
pub open spec fn moved(s: SearchState, e: EditorState, delta: int) -> (SearchState, EditorState) {
    if s.matches.len() == 0 {
        (SearchState { current: None, ..s }, e)
    } else {
        let base: int = match s.current {
            Some(i) => i as int,
            None => 0,
        };
        let c = Some(((base + delta) % (s.matches.len() as int)) as usize);
        (SearchState { current: c, ..s }, selected_match(e, s.matches, c))
    }
}

/// The replacements that put the replacement text over every match.
pub open spec fn all_replacements(s: SearchState) -> Seq<(Position, Position, Seq<char>)> {
    s.matches.map_values(|m: (Position, Position)| (m.0, m.1, s.replace_text))
}

/// `s2`/`e2` after replacing the current match (when there is one) as one
/// undo step and searching again from the cursor.
pub open spec fn replaced_current(s: SearchState, e: EditorState, s2: SearchState, e2: EditorState) -> bool {
    match s.current {
        Some(i) => if i < s.matches.len() {
            refreshed(
                s,
                replace_ranges_spec(e, seq![(s.matches[i as int].0, s.matches[i as int].1, s.replace_text)]),
                s2,
                e2,
            )
        } else {
            s2 == s && e2 == e
        },
        None => s2 == s && e2 == e,
    }
}

/// `s2`/`e2` after replacing every match (when there is any) as one undo
/// step and searching again from the cursor.
pub open spec fn replaced_all(s: SearchState, e: EditorState, s2: SearchState, e2: EditorState) -> bool {
    if s.matches.len() == 0 {
        s2 == s && e2 == e
    } else {
        refreshed(s, replace_ranges_spec(e, all_replacements(s)), s2, e2)
    }
}

/// What a key does while the overlay is open.
pub enum SearchKey {
    Close,
    ToggleFocus,
    Backspace,
    Previous,
    ReplaceAll,
    ReplaceCurrent,
    Next,
    ToggleCase,
    Type(char),
    Ignore,
}

/// The action a key event selects.
pub open spec fn search_key(event: KeyEvent, replace_mode: bool) -> SearchKey {
    let m = event.modifiers;
    let none = Modifiers::none_spec();
    match event.key {
        Key::Esc => if m == none {
            SearchKey::Close
        } else {
            SearchKey::Ignore
        },
        Key::Tab => if m == none && replace_mode {
            SearchKey::ToggleFocus
        } else {
            SearchKey::Ignore
        },
        Key::Backspace => if m == none {
            SearchKey::Backspace
        } else {
            SearchKey::Ignore
        },
        Key::Enter => if m == (Modifiers { shift: true, ..none }) {
            SearchKey::Previous
        } else if m == (Modifiers { ctrl: true, alt: true, ..none }) {
            SearchKey::ReplaceAll
        } else if m == (Modifiers { ctrl: true, ..none }) || m == (Modifiers { super_key: true, ..none }) {
            SearchKey::ReplaceCurrent
        } else if m == none {
            SearchKey::Next
        } else {
            SearchKey::Ignore
        },
        Key::Char(c) => if c == 'c' && m == (Modifiers { alt: true, ..none }) {
            SearchKey::ToggleCase
        } else if !m.ctrl && !m.alt && !m.super_key {
            SearchKey::Type(c)
        } else {
            SearchKey::Ignore
        },
        _ => SearchKey::Ignore,
    }
}

impl SearchOverlay {
    fn select_current(&self, editor: &mut EditorCore)
        requires
            old(editor)@.wf(),
        ensures
            final(editor)@ == selected_match(old(editor)@, self.matches@, self.current),
            final(editor)@.wf(),
    {
        if let Some(index) = self.current {
            if index < self.matches.len() {
                let (start, end) = self.matches[index];
                editor.select_range(start, end);
            }
        }
    }

    fn refresh_from_cursor(&mut self, editor: &mut EditorCore)
        requires
            old(editor)@.wf(),
        ensures
            refreshed(old(self)@, old(editor)@, final(self)@, final(editor)@),
            final(editor)@.wf(),
    {
        self.matches = find_matches(&editor.buffer, self.query.as_str(), self.case_sensitive);
        self.current = next_match_from(self.matches.as_slice(), editor.cursor);
        self.select_current(editor);
    }

    /// Shows the overlay with focus on the query, searching from the cursor.
    pub fn open(&mut self, replace_mode: bool, editor: &mut EditorCore)
        requires
            old(editor)@.wf(),
        ensures
            refreshed(
                SearchState { visible: true, replace_mode, focus: SearchFocus::Search, ..old(self)@ },
                old(editor)@,
                final(self)@,
                final(editor)@,
            ),
            final(editor)@.wf(),
    {
        self.visible = true;
        self.replace_mode = replace_mode;
        self.focus = SearchFocus::Search;
        self.refresh_from_cursor(editor);
    }

    /// Hides the overlay.
    pub fn close(&mut self)
        ensures
            final(self)@ == (SearchState { visible: false, ..old(self)@ }),
    {
        self.visible = false;
    }

    /// The number of matches.
    pub fn match_count(&self) -> (res: usize)
        ensures
            res == self.matches@.len(),
    {
        self.matches.len()
    }

    /// Whether the overlay is shown, and whether it is shown in replace mode.
    pub fn context_flags(&self) -> (res: (bool, bool))
        ensures
            res == (self.visible, self.visible && self.replace_mode),
    {
        (self.visible, self.visible && self.replace_mode)
    }

    fn move_current(&mut self, editor: &mut EditorCore, forward: bool)
        requires
            old(editor)@.wf(),
        ensures
            (final(self)@, final(editor)@) == moved(old(self)@, old(editor)@, if forward { 1 } else { -1 }),
            final(editor)@.wf(),
    {
        let n = self.matches.len();
        if n == 0 {
            self.current = None;
            return;
        }
        let base: usize = match self.current {
            Some(i) => i,
            None => 0,
        };
        let ghost delta: int = if forward { 1 } else { -1 };
        let b = base % n;
        proof {
            vstd::arithmetic::div_mod::lemma_mod_bound(base as int, n as int);
            vstd::arithmetic::div_mod::lemma_add_mod_noop(base as int, delta, n as int);
            vstd::arithmetic::div_mod::lemma_mod_bound(delta, n as int);
            vstd::arithmetic::div_mod::lemma_mod_bound(base as int + delta, n as int);
        }
        let next = if forward {
            if b + 1 == n {
                0
            } else {
                b + 1
            }
        } else {
            if b == 0 {
                n - 1
            } else {
                b - 1
            }
        };
        proof {
            let m = n as int;
            vstd::arithmetic::div_mod::lemma_add_mod_noop_right(delta, base as int, m);
            assert((delta + b as int) % m == (base as int + delta) % m);
            if forward {
                if b + 1 == n {
                    vstd::arithmetic::div_mod::lemma_mod_self_0(m);
                } else {
                    vstd::arithmetic::div_mod::lemma_small_mod((b + 1) as nat, n as nat);
                }
            } else {
                if b == 0 {
                    vstd::arithmetic::div_mod::lemma_mod_add_multiples_vanish(-1, m);
                    vstd::arithmetic::div_mod::lemma_small_mod((n - 1) as nat, n as nat);
                } else {
                    vstd::arithmetic::div_mod::lemma_small_mod((b - 1) as nat, n as nat);
                }
            }
            assert(next as int == (base as int + delta) % m);
        }
        self.current = Some(next);
        self.select_current(editor);
    }

    /// Moves to the next match, wrapping, and selects it.
    pub fn next(&mut self, editor: &mut EditorCore)
        requires
            old(editor)@.wf(),
        ensures
            (final(self)@, final(editor)@) == moved(old(self)@, old(editor)@, 1),
            final(editor)@.wf(),
            old(self)@.matches.len() == 0 ==> final(self)@.current is None && final(editor)@ == old(editor)@,
            old(self)@.matches.len() > 0 && (old(self)@.current matches Some(i) ==> i < old(self)@.matches.len())
                ==> ({
                let n = old(self)@.matches.len() as int;
                let b: int = match old(self)@.current {
                    Some(i) => i as int,
                    None => 0,
                };
                let a: int = if b + 1 < n { b + 1 } else { 0 };
                &&& final(self)@.current == Some(a as usize)
                &&& final(editor)@ == select_range_spec(
                    old(editor)@,
                    old(self)@.matches[a].0,
                    old(self)@.matches[a].1,
                )
            }),
    {
        let ghost s0 = self@;
        let ghost e0 = editor@;
        assert(s0.matches.len() == self.matches.len());
        self.move_current(editor, true);
        proof {
            if s0.matches.len() > 0 && (s0.current matches Some(i) ==> i < s0.matches.len()) {
                law_next_and_previous_step_by_one(s0, e0);
            }
        }
    }

    /// Moves to the previous match, wrapping, and selects it.
    pub fn previous(&mut self, editor: &mut EditorCore)
        requires
            old(editor)@.wf(),
        ensures
            (final(self)@, final(editor)@) == moved(old(self)@, old(editor)@, -1),
            final(editor)@.wf(),
            old(self)@.matches.len() == 0 ==> final(self)@.current is None && final(editor)@ == old(editor)@,
            old(self)@.matches.len() > 0 && (old(self)@.current matches Some(i) ==> i < old(self)@.matches.len())
                ==> ({
                let n = old(self)@.matches.len() as int;
                let b: int = match old(self)@.current {
                    Some(i) => i as int,
                    None => 0,
                };
                let a: int = if b > 0 { b - 1 } else { n - 1 };
                &&& final(self)@.current == Some(a as usize)
                &&& final(editor)@ == select_range_spec(
                    old(editor)@,
                    old(self)@.matches[a].0,
                    old(self)@.matches[a].1,
                )
            }),
    {
        let ghost s0 = self@;
        let ghost e0 = editor@;
        assert(s0.matches.len() == self.matches.len());
        self.move_current(editor, false);
        proof {
            if s0.matches.len() > 0 && (s0.current matches Some(i) ==> i < s0.matches.len()) {
                law_next_and_previous_step_by_one(s0, e0);
            }
        }
    }

    /// Searches again and selects the first match at or after the cursor.
    pub fn next_from_cursor(&mut self, editor: &mut EditorCore)
        requires
            old(editor)@.wf(),
        ensures
            refreshed(old(self)@, old(editor)@, final(self)@, final(editor)@),
            final(editor)@.wf(),
    {
        self.refresh_from_cursor(editor);
    }

    /// Searches again and selects the last match before the cursor.
    pub fn previous_from_cursor(&mut self, editor: &mut EditorCore)
        requires
            old(editor)@.wf(),
        ensures
            refreshed_backward(old(self)@, old(editor)@, final(self)@, final(editor)@),
            final(editor)@.wf(),
    {
        self.matches = find_matches(&editor.buffer, self.query.as_str(), self.case_sensitive);
        self.current = previous_match_from(self.matches.as_slice(), editor.cursor);
        self.select_current(editor);
    }

    /// Replaces the current match by the replacement text as one undo step,
    /// then searches again from the cursor.
    pub fn replace_current(&mut self, editor: &mut EditorCore)
        requires
            old(editor)@.wf(),
        ensures
            final(editor)@.wf(),
            replaced_current(old(self)@, old(editor)@, final(self)@, final(editor)@),
    {
        let index = match self.current {
            Some(index) => index,
            None => return ,
        };
        if index >= self.matches.len() {
            return ;
        }
        let (start, end) = self.matches[index];
        let replacement = self.replace_text.clone();
        let items = [(start, end, replacement.as_str())];
        assert(crate::model::editor::replacements_view(items@) =~= seq![(start, end, self.replace_text@)]);
        editor.replace_ranges(&items);
        self.refresh_from_cursor(editor);
    }

    /// Replaces every match by the replacement text as one undo step, then
    /// searches again from the cursor; nothing happens without matches.
    pub fn replace_all(&mut self, editor: &mut EditorCore)
        requires
            old(editor)@.wf(),
        ensures
            final(editor)@.wf(),
            replaced_all(old(self)@, old(editor)@, final(self)@, final(editor)@),
    {
        if self.matches.len() == 0 {
            return ;
        }
        let replacement = self.replace_text.clone();
        let mut items: Vec<(Position, Position, &str)> = Vec::new();
        let mut i: usize = 0;
        while i < self.matches.len()
            invariant
                i <= self.matches@.len(),
                replacement@ == self.replace_text@,
                crate::model::editor::replacements_view(items@) == all_replacements(self@).take(i as int),
            decreases self.matches@.len() - i,
        {
            let (start, end) = self.matches[i];
            items.push((start, end, replacement.as_str()));
            assert(all_replacements(self@).take(i + 1) =~= all_replacements(self@).take(i as int).push(
                (start, end, self.replace_text@),
            ));
            assert(crate::model::editor::replacements_view(items@) =~= all_replacements(self@).take(i + 1));
            i = i + 1;
        }
        assert(all_replacements(self@).take(i as int) =~= all_replacements(self@));
        editor.replace_ranges(items.as_slice());
        self.refresh_from_cursor(editor);
    }

    /// Appends pasted text to the focused input; a changed query searches again.
    pub fn paste_text(&mut self, text: &str, editor: &mut EditorCore)
        requires
            old(editor)@.wf(),
        ensures
            final(editor)@.wf(),
            old(self).focus == SearchFocus::Search ==> refreshed(
                SearchState { query: old(self).query@ + text@, ..old(self)@ },
                old(editor)@,
                final(self)@,
                final(editor)@,
            ),
            old(self).focus == SearchFocus::Replace ==> final(self)@ == (SearchState {
                replace_text: old(self).replace_text@ + text@,
                ..old(self)@
            }) && final(editor)@ == old(editor)@,
    {
        match self.focus {
            SearchFocus::Search => {
                self.query.append(text);
                self.refresh_from_cursor(editor);
            },
            SearchFocus::Replace => {
                self.replace_text.append(text);
            },
        }
    }

    /// Feeds one key: Esc closes, Tab switches the input in replace mode,
    /// Backspace and plain characters edit the focused input, Enter moves
    /// (Shift+Enter backward), Ctrl/Cmd+Enter replaces the current match,
    /// Ctrl+Alt+Enter replaces all, Alt+C toggles case sensitivity. Returns
    /// whether the key was consumed.
    pub fn handle_key(&mut self, event: &KeyEvent, editor: &mut EditorCore) -> (res: bool)
        requires
            old(editor)@.wf(),
        ensures
            final(editor)@.wf(),
            res == !(search_key(*event, old(self).replace_mode) is Ignore),
            match search_key(*event, old(self).replace_mode) {
                SearchKey::Close => final(self)@ == (SearchState { visible: false, ..old(self)@ })
                    && final(editor)@ == old(editor)@,
                SearchKey::ToggleFocus => final(self)@ == (SearchState {
                    focus: if old(self).focus == SearchFocus::Search {
                        SearchFocus::Replace
                    } else {
                        SearchFocus::Search
                    },
                    ..old(self)@
                }) && final(editor)@ == old(editor)@,
                SearchKey::Backspace => if old(self).focus == SearchFocus::Search {
                    refreshed(
                        SearchState {
                            query: if old(self).query@.len() > 0 {
                                old(self).query@.drop_last()
                            } else {
                                old(self).query@
                            },
                            ..old(self)@
                        },
                        old(editor)@,
                        final(self)@,
                        final(editor)@,
                    )
                } else {
                    final(self)@ == (SearchState {
                        replace_text: if old(self).replace_text@.len() > 0 {
                            old(self).replace_text@.drop_last()
                        } else {
                            old(self).replace_text@
                        },
                        ..old(self)@
                    }) && final(editor)@ == old(editor)@
                },
                SearchKey::Previous => (final(self)@, final(editor)@) == moved(old(self)@, old(editor)@, -1),
                SearchKey::ReplaceAll => replaced_all(old(self)@, old(editor)@, final(self)@, final(editor)@),
                SearchKey::ReplaceCurrent => replaced_current(old(self)@, old(editor)@, final(self)@, final(editor)@),
                SearchKey::Next => (final(self)@, final(editor)@) == moved(old(self)@, old(editor)@, 1),
                SearchKey::ToggleCase => refreshed(
                    SearchState { case_sensitive: !old(self).case_sensitive, ..old(self)@ },
                    old(editor)@,
                    final(self)@,
                    final(editor)@,
                ),
                SearchKey::Type(c) => if old(self).focus == SearchFocus::Search {
                    refreshed(
                        SearchState { query: old(self).query@.push(c), ..old(self)@ },
                        old(editor)@,
                        final(self)@,
                        final(editor)@,
                    )
                } else {
                    final(self)@ == (SearchState { replace_text: old(self).replace_text@.push(c), ..old(self)@ })
                        && final(editor)@ == old(editor)@
                },
                SearchKey::Ignore => final(self)@ == old(self)@ && final(editor)@ == old(editor)@,
            },
    {
        let m = event.modifiers;
        let none = Modifiers::none();
        match event.key {
            Key::Esc => {
                if m == none {
                    self.close();
                    return true;
                }
                false
            },
            Key::Tab => {
                if m == none && self.replace_mode {
                    self.focus = match self.focus {
                        SearchFocus::Search => SearchFocus::Replace,
                        SearchFocus::Replace => SearchFocus::Search,
                    };
                    return true;
                }
                false
            },
            Key::Backspace => {
                if m == none {
                    match self.focus {
                        SearchFocus::Search => {
                            pop_char(&mut self.query);
                            self.refresh_from_cursor(editor);
                        },
                        SearchFocus::Replace => {
                            pop_char(&mut self.replace_text);
                        },
                    }
                    return true;
                }
                false
            },
            Key::Enter => {
                if m == Modifiers::shift() {
                    self.previous(editor);
                    true
                } else if m == Modifiers::ctrl().with_alt() {
                    self.replace_all(editor);
                    true
                } else if m == Modifiers::ctrl() || m == Modifiers::super_key() {
                    self.replace_current(editor);
                    true
                } else if m == none {
                    self.next(editor);
                    true
                } else {
                    false
                }
            },
            Key::Char(c) => {
                if c == 'c' && m == Modifiers::alt() {
                    self.case_sensitive = !self.case_sensitive;
                    self.refresh_from_cursor(editor);
                    true
                } else if !m.contains_ctrl() && !m.contains_alt() && !m.contains_super() {
                    match self.focus {
                        SearchFocus::Search => {
                            push_char(&mut self.query, c);
                            self.refresh_from_cursor(editor);
                        },
                        SearchFocus::Replace => {
                            push_char(&mut self.replace_text, c);
                        },
                    }
                    true
                } else {
                    false
                }
            },
            _ => false,
        }
    }
}

/// The match counter: `current/total`, or "no matches".
pub open spec fn count_text(current: Option<usize>, total: nat) -> Seq<char> {
    match current {
        Some(i) => decimal((i + 1) as nat) + seq!['/'] + decimal(total),
        None => "no matches"@,
    }
}

/// A bar row: `text` cut and padded to `w`.
pub open spec fn bar_text(text: Seq<char>, w: nat) -> Seq<char> {
    padded(clipped(text, w), w)
}

/// What the search bar draws on a `width` x `height` screen, and where the
/// cursor goes: nothing when it is hidden or the screen is empty; else the
/// Find row (query, case mode, counter) and, in replace mode on a screen of
/// two rows or more, the Replace row, both dim; then the focused row's label
/// in the normal style. The cursor follows the focused field's text (at
/// most on the last column), when its row is on screen.
pub open spec fn search_rows_spec(s: SearchOverlay, width: u16, height: u16) -> (Seq<DrawnText>, Option<(u16, u16)>) {
    if !s.visible || width == 0 || height == 0 {
        (Seq::empty(), None)
    } else {
        let w = width as nat;
        let first = "Find: "@ + s.query@ + " [Aa:"@ + (if s.case_sensitive { "on"@ } else { "off"@ }) + "] "@
            + count_text(s.current, s.matches@.len());
        let two = s.replace_mode && height > 1;
        let rows = seq![(0u16, 0u16, bar_text(first, w), TextStyle::Dim)] + if two {
            seq![(0u16, 1u16, bar_text("Replace: "@ + s.replace_text@, w), TextStyle::Dim)]
        } else {
            Seq::empty()
        };
        let label = match s.focus {
            SearchFocus::Search => seq![(0u16, 0u16, "Find:"@, TextStyle::Normal)],
            SearchFocus::Replace => if two {
                seq![(0u16, 1u16, "Replace:"@, TextStyle::Normal)]
            } else {
                Seq::empty()
            },
        };
        let (cx, cy) = match s.focus {
            SearchFocus::Search => ((6 + s.query@.len()) as int, 0int),
            SearchFocus::Replace => ((9 + s.replace_text@.len()) as int, 1int),
        };
        (rows + label, if cy < height { Some((capped_at(cx, w - 1) as u16, cy as u16)) } else { None })
    }
}

impl SearchOverlay {
    /// What the search bar draws and where the cursor goes (see
    /// [`search_rows_spec`]).
    pub fn rows(&self, width: u16, height: u16) -> (res: (Vec<(u16, u16, String, TextStyle)>, Option<(u16, u16)>))
        requires
            self.current matches Some(i) ==> i < usize::MAX,
        ensures
            (drawn(res.0@), res.1) == search_rows_spec(*self, width, height),
    {
        let mut out: Vec<(u16, u16, String, TextStyle)> = Vec::new();
        if !self.visible || width == 0 || height == 0 {
            assert(drawn(out@) =~= Seq::<DrawnText>::empty());
            return (out, None);
        }
        let w = width as usize;
        let mut first = "Find: ".to_owned();
        first.append(self.query.as_str());
        first.append(" [Aa:");
        if self.case_sensitive {
            first.append("on");
        } else {
            first.append("off");
        }
        first.append("] ");
        match self.current {
            Some(i) => {
                first.append(decimal_string(i + 1).as_str());
                push_char(&mut first, '/');
                first.append(decimal_string(self.matches.len()).as_str());
            },
            None => first.append("no matches"),
        }
        let ghost first_v = first@;
        let ghost spec_first = "Find: "@ + self.query@ + " [Aa:"@ + (if self.case_sensitive { "on"@ } else { "off"@ }) + "] "@
            + count_text(self.current, self.matches@.len());
        assert(first_v =~= spec_first);
        out.push((0u16, 0u16, pad_text(clip_text(first.as_str(), w), w), TextStyle::Dim));
        let two = self.replace_mode && height > 1;
        if two {
            let mut second = "Replace: ".to_owned();
            second.append(self.replace_text.as_str());
            assert(second@ =~= "Replace: "@ + self.replace_text@);
            out.push((0u16, 1u16, pad_text(clip_text(second.as_str(), w), w), TextStyle::Dim));
        }
        let ghost rows = drawn(out@);
        match self.focus {
            SearchFocus::Search => out.push((0u16, 0u16, "Find:".to_owned(), TextStyle::Normal)),
            SearchFocus::Replace => {
                if two {
                    out.push((0u16, 1u16, "Replace:".to_owned(), TextStyle::Normal));
                }
            },
        }
        let cap = w - 1;
        let (text_len, y): (usize, u16) = match self.focus {
            SearchFocus::Search => (self.query.as_str().unicode_len(), 0u16),
            SearchFocus::Replace => (self.replace_text.as_str().unicode_len(), 1u16),
        };
        let offset: usize = match self.focus {
            SearchFocus::Search => 6,
            SearchFocus::Replace => 9,
        };
        let x = if text_len >= cap {
            cap
        } else if offset + text_len < cap {
            offset + text_len
        } else {
            cap
        };
        assert(drawn(out@) =~= search_rows_spec(*self, width, height).0);
        if y < height {
            (out, Some((x as u16, y)))
        } else {
            (out, None)
        }
    }
}

/// In the search box, Enter alone goes to the next match and Shift+Enter to
/// the previous one, in find and in replace mode alike.
pub proof fn law_enter_goes_forward_and_shift_enter_back(replace_mode: bool)
    ensures
        search_key(
            KeyEvent {
                key: Key::Enter,
                modifiers: Modifiers { shift: false, ctrl: false, alt: false, super_key: false },
            },
            replace_mode,
        ) == SearchKey::Next,
        search_key(
            KeyEvent {
                key: Key::Enter,
                modifiers: Modifiers { shift: true, ctrl: false, alt: false, super_key: false },
            },
            replace_mode,
        ) == SearchKey::Previous,
{
}

/// Next goes to the match after the current one and previous to the one
/// before it, wrapping around at both ends (with no current match, from the
/// first), and each selects the match it goes to.
pub proof fn law_next_and_previous_step_by_one(s: SearchState, e: EditorState)
    requires
        0 < s.matches.len() <= usize::MAX,
        s.current matches Some(i) ==> i < s.matches.len(),
    ensures
        ({
            let n = s.matches.len() as int;
            let b: int = match s.current {
                Some(i) => i as int,
                None => 0,
            };
            let after: int = if b + 1 < n { b + 1 } else { 0 };
            let before: int = if b > 0 { b - 1 } else { n - 1 };
            &&& moved(s, e, 1).0 == SearchState { current: Some(after as usize), ..s }
            &&& moved(s, e, 1).1 == select_range_spec(e, s.matches[after].0, s.matches[after].1)
            &&& moved(s, e, -1).0 == SearchState { current: Some(before as usize), ..s }
            &&& moved(s, e, -1).1 == select_range_spec(e, s.matches[before].0, s.matches[before].1)
        }),
{
    let n = s.matches.len() as int;
    let b: int = match s.current {
        Some(i) => i as int,
        None => 0,
    };
    if b + 1 < n {
        vstd::arithmetic::div_mod::lemma_small_mod((b + 1) as nat, n as nat);
    } else {
        vstd::arithmetic::div_mod::lemma_mod_self_0(n);
    }
    if b > 0 {
        vstd::arithmetic::div_mod::lemma_small_mod((b - 1) as nat, n as nat);
    } else {
        vstd::arithmetic::div_mod::lemma_mod_add_multiples_vanish(-1, n);
        vstd::arithmetic::div_mod::lemma_small_mod((n - 1) as nat, n as nat);
    }
}

} // verus!
