//! Mouse input: a click on the tab bar switches buffers, a click in the text
//! moves the cursor (a second and third click on the same cell within half a
//! second select the word and the line), a drag selects, the wheel scrolls,
//! and Shift leaves the event to the terminal's own selection.
//!
//! Which buffer position a cell shows is the viewport's business, so the
//! caller hands it in, together with the time of the event.

use vstd::prelude::*;

use crate::dispatch::{active_editor, edited, lemma_put, put_doc, take_doc, Front, FrontView};
use crate::document::Document;
use crate::model::editor::{select_range_spec, set_cursor_spec, EditorState};
use crate::model::position::Position;
use crate::overlay::search::SearchState;
use crate::session::{ellipsized, tab_hit, tab_index_at_column, tab_labels, QuitGuard};
use crate::workspace::{line_range, tab_label, word_range};

verus! {

/// Lines scrolled by one wheel step.
pub const WHEEL_SCROLL_LINES: i64 = 3;

/// Columns scrolled by one sideways wheel step.
pub const WHEEL_SCROLL_COLUMNS: i64 = 3;

/// The longest pause, in milliseconds, between clicks that count as one
/// double or triple click.
pub const MULTI_CLICK_INTERVAL_MS: u64 = 500;

/// A mouse button.
#[derive(Debug, Clone, Copy, PartialEq, Eq, Structural)]
pub enum MouseButton {
    Left,
    Right,
    Middle,
}

/// What the mouse did.
#[derive(Debug, Clone, Copy, PartialEq, Eq, Structural)]
pub enum MouseKind {
    Press(MouseButton),
    Drag(MouseButton),
    Release(MouseButton),
    WheelUp,
    WheelDown,
    WheelLeft,
    WheelRight,
}

/// A mouse event at a 1-based terminal cell.
#[derive(Debug, Clone, Copy, PartialEq, Eq, Structural)]
pub struct MouseInput {
    pub kind: MouseKind,
    pub column: u16,
    pub row: u16,
    pub shift: bool,
}

/// What the mouse remembers between events: the last click (its time in
/// milliseconds, its position and how many clicks it counted) and where a
/// drag selection is anchored.
#[derive(Debug, Clone, Copy)]
pub struct ClickState {
    pub last_click: Option<(u64, Position, u8)>,
    pub drag_anchor: Option<Position>,
}

/// What the viewport has to do after a mouse event.
#[derive(Debug, Clone, Copy, PartialEq, Eq, Structural)]
pub enum MouseEffect {
    Nothing,
    /// Follow the cursor again.
    FollowCursor,
    /// Scroll by this many lines and stop following the cursor.
    ScrollLines(i64),
    /// Scroll by this many columns and stop following the cursor.
    ScrollColumns(i64),
}

impl ClickState {
    /// No click yet and no drag.
    pub fn new() -> (res: ClickState)
        ensures
            res.last_click is None,
            res.drag_anchor is None,
    {
        ClickState { last_click: None, drag_anchor: None }
    }
}

/// `a - b`, or 0 when `b` is larger.
pub open spec fn saturating_diff(a: int, b: int) -> int {
    if a >= b {
        a - b
    } else {
        0
    }
}

/// How many clicks a click at `position` at time `now` counts: one more
/// than the last (after three, one again) when it hits the same position
/// within the interval, else one.
pub open spec fn click_count(last: Option<(u64, Position, u8)>, position: Position, now: u64) -> u8 {
    match last {
        Some((at, previous, count)) => if previous == position && saturating_diff(now as int, at as int)
            <= MULTI_CLICK_INTERVAL_MS {
            (count % 3 + 1) as u8
        } else {
            1
        },
        None => 1,
    }
}

/// The editor after the `count`th click at `position`: two select the word
/// there, three the line, any other count places the cursor.
pub open spec fn clicked(e: EditorState, position: Position, count: u8) -> EditorState {
    if count == 2 {
        match word_range(e, position) {
            Some((start, end)) => select_range_spec(e, start, end),
            None => e,
        }
    } else if count == 3 {
        select_range_spec(e, line_range(e, position.line).0, line_range(e, position.line).1)
    } else {
        EditorState { selection: None, ..set_cursor_spec(e, position, true) }
    }
}

/// Where a drag that follows a click at `position` is anchored: the
/// selection's anchor, else the click.
pub open spec fn anchor_after(e: EditorState, position: Position) -> Position {
    match e.selection {
        Some(s) => s.anchor,
        None => position,
    }
}

/// The labels of the tab bar.
pub open spec fn tab_bar_labels(docs: Seq<Document>) -> Seq<Seq<char>> {
    Seq::new(docs.len(), |i: int| tab_label(i as nat, docs[i]))
}

/// The front end after a click on the tab bar at `column` (1-based) of a
/// bar `width` wide: the tab hit becomes active, with the search closed and
/// the close confirmation forgotten.
pub open spec fn tab_clicked(o: FrontView, column: u16, width: u16) -> FrontView {
    match tab_hit(tab_bar_labels(o.docs), saturating_diff(column as int, 1), width as int, 0, 0) {
        Some(k) => FrontView {
            active: k,
            search: SearchState { visible: false, ..o.search },
            close_guard: QuitGuard { warned: false },
            ..o
        },
        None => o,
    }
}

/// What a mouse event does: `o` and `c` before, `f` and `c2` after, `res`
/// what the viewport is told. `position` is the buffer position of the
/// event's cell, when it shows one, and `now` its time in milliseconds.
pub open spec fn mouse_rel(
    o: FrontView,
    c: ClickState,
    input: MouseInput,
    position: Option<Position>,
    now: u64,
    width: u16,
    f: FrontView,
    c2: ClickState,
    res: MouseEffect,
) -> bool {
    let unchanged = f == o && c2 == c;
    if input.shift || o.palette.0 || o.prompt.0 || o.inspector.0 {
        unchanged && res == MouseEffect::Nothing
    } else {
        match input.kind {
            MouseKind::WheelUp => unchanged && res == MouseEffect::ScrollLines((-WHEEL_SCROLL_LINES) as i64),
            MouseKind::WheelDown => unchanged && res == MouseEffect::ScrollLines(WHEEL_SCROLL_LINES),
            MouseKind::WheelLeft => unchanged && res == MouseEffect::ScrollColumns((-WHEEL_SCROLL_COLUMNS) as i64),
            MouseKind::WheelRight => unchanged && res == MouseEffect::ScrollColumns(WHEEL_SCROLL_COLUMNS),
            MouseKind::Press(MouseButton::Left) => if input.row == 1 {
                f == tab_clicked(o, input.column, width) && c2 == c && res == MouseEffect::Nothing
            } else {
                match position {
                    Some(p) => {
                        let n = click_count(c.last_click, p, now);
                        let e2 = clicked(active_editor(o), p, n);
                        &&& f == FrontView { docs: f.docs, ..o }
                        &&& edited(o, f, e2)
                        &&& c2 == ClickState {
                            last_click: Some((now, p, n)),
                            drag_anchor: Some(anchor_after(e2, p)),
                        }
                        &&& res == MouseEffect::FollowCursor
                    },
                    None => unchanged && res == MouseEffect::Nothing,
                }
            },
            MouseKind::Drag(MouseButton::Left) => match (c.drag_anchor, position) {
                (Some(a), Some(p)) => {
                    &&& f == FrontView { docs: f.docs, ..o }
                    &&& edited(o, f, select_range_spec(active_editor(o), a, p))
                    &&& c2 == c
                    &&& res == MouseEffect::FollowCursor
                },
                _ => unchanged && res == MouseEffect::Nothing,
            },
            MouseKind::Release(MouseButton::Left) => f == o && c2 == ClickState { drag_anchor: None, ..c }
                && res == MouseEffect::Nothing,
            _ => unchanged && res == MouseEffect::Nothing,
        }
    }
}

/// A tab that a click hits is one of the tabs from `index` on.
proof fn lemma_tab_hit_in_range(labels: Seq<Seq<char>>, target: int, width: int, index: int, x: int)
    requires
        labels.len() <= usize::MAX,
    ensures
        tab_hit(labels, target, width, index, x) matches Some(k) ==> index <= k < labels.len(),
    decreases labels.len() - index,
{
    if 0 <= index < labels.len() {
        let x1 = if index > 0 {
            x + 2
        } else {
            x
        };
        if x1 < width {
            let len = ellipsized(labels[index], (width - x1) as nat).len();
            lemma_tab_hit_in_range(labels, target, width, index + 1, x1 + len);
        }
    }
}

impl Front {
    /// Handles a mouse event (see [`mouse_rel`]).
    pub fn mouse(
        &mut self,
        clicks: &mut ClickState,
        input: MouseInput,
        position: Option<Position>,
        now_ms: u64,
        width: u16,
    ) -> (res: MouseEffect)
        requires
            old(self).wf(),
        ensures
            final(self).wf(),
            mouse_rel(old(self)@, *old(clicks), input, position, now_ms, width, final(self)@, *final(clicks), res),
    {
        if input.shift || self.palette.visible || self.prompt.visible || self.inspector.visible {
            return MouseEffect::Nothing;
        }
        match input.kind {
            MouseKind::WheelUp => MouseEffect::ScrollLines(-WHEEL_SCROLL_LINES),
            MouseKind::WheelDown => MouseEffect::ScrollLines(WHEEL_SCROLL_LINES),
            MouseKind::WheelLeft => MouseEffect::ScrollColumns(-WHEEL_SCROLL_COLUMNS),
            MouseKind::WheelRight => MouseEffect::ScrollColumns(WHEEL_SCROLL_COLUMNS),
            MouseKind::Press(MouseButton::Left) => {
                if input.row == 1 {
                    self.click_tab(input.column, width);
                    MouseEffect::Nothing
                } else {
                    match position {
                        Some(p) => {
                            self.click_at(clicks, p, now_ms);
                            MouseEffect::FollowCursor
                        },
                        None => MouseEffect::Nothing,
                    }
                }
            },
            MouseKind::Drag(MouseButton::Left) => match (clicks.drag_anchor, position) {
                (Some(anchor), Some(p)) => {
                    self.drag_to(anchor, p);
                    MouseEffect::FollowCursor
                },
                _ => MouseEffect::Nothing,
            },
            MouseKind::Release(MouseButton::Left) => {
                clicks.drag_anchor = None;
                MouseEffect::Nothing
            },
            _ => MouseEffect::Nothing,
        }
    }

    /// A click on the tab bar.
    fn click_tab(&mut self, column: u16, width: u16)
        requires
            old(self).wf(),
        ensures
            final(self).wf(),
            final(self)@ == tab_clicked(old(self)@, column, width),
    {
        let items = self.workspace.tab_items();
        let target = column.saturating_sub(1);
        proof {
            assert(tab_labels(items@) =~= tab_bar_labels(self@.docs));
            assert(items@.len() == items.len());
            lemma_tab_hit_in_range(tab_bar_labels(self@.docs), target as int, width as int, 0, 0);
        }
        match tab_index_at_column(items.as_slice(), target, width) {
            Some(index) => {
                self.workspace.active = index;
                self.search.close();
                self.workspace.close_guard.reset();
            },
            None => {},
        }
    }

    /// A click in the text at `p`.
    fn click_at(&mut self, clicks: &mut ClickState, p: Position, now: u64)
        requires
            old(self).wf(),
        ensures
            final(self).wf(),
            ({
                let n = click_count(old(clicks).last_click, p, now);
                let e2 = clicked(active_editor(old(self)@), p, n);
                &&& final(self)@ == FrontView { docs: final(self)@.docs, ..old(self)@ }
                &&& edited(old(self)@, final(self)@, e2)
                &&& *final(clicks) == ClickState {
                    last_click: Some((now, p, n)),
                    drag_anchor: Some(anchor_after(e2, p)),
                }
            }),
    {
        let ghost o = self@;
        let count: u8 = match clicks.last_click {
            Some((at, previous, n)) => {
                if previous == p && now.saturating_sub(at) <= MULTI_CLICK_INTERVAL_MS {
                    n % 3 + 1
                } else {
                    1
                }
            },
            None => 1,
        };
        assert(count == click_count(old(clicks).last_click, p, now));
        clicks.last_click = Some((now, p, count));
        if count == 2 {
            self.workspace.select_word_at(p);
        } else if count == 3 {
            self.workspace.select_line_at(p.line);
        } else {
            let a = self.workspace.active;
            let ghost orig = self.workspace.documents@;
            let mut doc = take_doc(&mut self.workspace.documents, a);
            doc.editor.set_cursor_position(p);
            put_doc(&mut self.workspace.documents, a, doc, Ghost(orig));
            proof {
                lemma_put(o, self@, doc, self.workspace);
            }
        }
        assert(edited(o, self@, clicked(active_editor(o), p, count)));
        let a = self.workspace.active;
        let anchor = match self.workspace.documents[a].editor.selection {
            Some(s) => s.anchor,
            None => p,
        };
        clicks.drag_anchor = Some(anchor);
    }

    /// A drag from `anchor` to `p`.
    fn drag_to(&mut self, anchor: Position, p: Position)
        requires
            old(self).wf(),
        ensures
            final(self).wf(),
            (final(self)@ == FrontView { docs: final(self)@.docs, ..old(self)@ }),
            edited(old(self)@, final(self)@, select_range_spec(active_editor(old(self)@), anchor, p)),
    {
        let ghost o = self@;
        let a = self.workspace.active;
        let ghost orig = self.workspace.documents@;
        let mut doc = take_doc(&mut self.workspace.documents, a);
        doc.editor.select_range(anchor, p);
        put_doc(&mut self.workspace.documents, a, doc, Ghost(orig));
        proof {
            lemma_put(o, self@, doc, self.workspace);
        }
    }
}

} // verus!
