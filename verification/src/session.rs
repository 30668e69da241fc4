//! Session-level decisions of the editor front end: the two-stage quit and
//! save-conflict confirmations, the tab bar's hit testing, and the startup
//! warning about bindings a terminal intercepts.

use vstd::prelude::*;
use vstd::string::*;

use crate::model::buffer::strings_view;
use crate::overlay::palette_box::{drawn, DrawnText, TextStyle};
use crate::text::{decimal, decimal_string, display_width, str_width};

verus! {

broadcast use {vstd::seq::group_seq_axioms, vstd::seq_lib::group_seq_properties};

/// Whether the event loop should keep running.
#[derive(Debug, Clone, Copy, PartialEq, Eq, Structural)]
pub enum QuitDecision {
    Continue,
    Quit,
}

/// Two-stage quit confirmation: with unsaved changes the first request only
/// warns, the next one quits.
#[derive(Debug, Clone, Copy, PartialEq, Eq, Structural)]
pub struct QuitGuard {
    pub warned: bool,
}

impl Default for QuitGuard {
    fn default() -> (res: Self)
        ensures
            !res.warned,
    {
        QuitGuard { warned: false }
    }
}

/// The guard and decision after a quit request: quit at once when nothing
/// is modified or the user was already warned, else warn and continue.
pub open spec fn request_quit_spec(g: QuitGuard, modified: bool) -> (QuitGuard, QuitDecision) {
    if !modified || g.warned {
        (g, QuitDecision::Quit)
    } else {
        (QuitGuard { warned: true }, QuitDecision::Continue)
    }
}

/// The guard warns at most once in a row: the request after a warning quits,
/// modified or not.
pub proof fn law_quit_after_warning(g: QuitGuard, first: bool, second: bool)
    ensures
        request_quit_spec(g, first).1 == QuitDecision::Continue ==> request_quit_spec(
            request_quit_spec(g, first).0,
            second,
        ).1 == QuitDecision::Quit,
{
}

impl QuitGuard {
    /// Quits at once when nothing is modified or a warning was already given;
    /// otherwise records the warning and continues.
    pub fn request_quit(&mut self, modified: bool) -> (res: QuitDecision)
        ensures
            (*final(self), res) == request_quit_spec(*old(self), modified),
    {
        if !modified || self.warned {
            QuitDecision::Quit
        } else {
            self.warned = true;
            QuitDecision::Continue
        }
    }

    /// Forgets an earlier warning.
    pub fn reset(&mut self)
        ensures
            !final(self).warned,
    {
        self.warned = false;
    }
}

/// Two-stage confirmation for a save that hits an external change: the first
/// conflicting save only warns, the next one forces the overwrite.
#[derive(Debug, Clone, Copy, PartialEq, Eq, Structural)]
pub struct SaveConflictGuard {
    pub warned: bool,
}

impl Default for SaveConflictGuard {
    fn default() -> (res: Self)
        ensures
            !res.warned,
    {
        SaveConflictGuard { warned: false }
    }
}

impl SaveConflictGuard {
    /// Whether the next save overwrites regardless of the conflict.
    pub fn should_force(&self) -> (res: bool)
        ensures
            res == self.warned,
    {
        self.warned
    }

    /// Records that the user was warned about the conflict.
    pub fn warn(&mut self)
        ensures
            final(self).warned,
    {
        self.warned = true;
    }

    /// Forgets the warning.
    pub fn reset(&mut self)
        ensures
            !final(self).warned,
    {
        self.warned = false;
    }
}

/// One entry of the tab bar.
#[derive(Debug, Clone, PartialEq, Eq)]
pub struct TabItem {
    pub label: String,
    pub active: bool,
}

/// `text` fitted into `width` characters, ending in `…` when it is cut.
pub open spec fn ellipsized(text: Seq<char>, width: nat) -> Seq<char> {
    if width == 0 {
        Seq::empty()
    } else if text.len() <= width {
        text
    } else if width == 1 {
        seq!['…']
    } else {
        text.take(width - 1).push('…')
    }
}

fn ellipsis() -> (res: &'static str)
    ensures
        res@ == seq!['…'],
{
    let s = "…";
    proof {
        reveal_strlit("…");
        assert(s@ =~= seq!['…']);
    }
    s
}

/// Shortens `text` to at most `width` characters with a trailing `…`.
pub fn ellipsize(text: &str, width: usize) -> (res: String)
    ensures
        res@ == ellipsized(text@, width as nat),
{
    if width == 0 {
        return String::new();
    }
    let count = text.unicode_len();
    if count <= width {
        return text.to_owned();
    }
    if width == 1 {
        return ellipsis().to_owned();
    }
    let mut clipped = text.substring_char(0, width - 1).to_owned();
    clipped.append(ellipsis());
    assert(clipped@ =~= text@.take(width - 1).push('…'));
    clipped
}

/// The tab whose label covers `target` on a bar `width` columns wide, with
/// tabs from `index` on starting at column `x` (two spaces between tabs).
pub open spec fn tab_hit(labels: Seq<Seq<char>>, target: int, width: int, index: int, x: int) -> Option<usize>
    decreases labels.len() - index,
{
    if index < 0 || index >= labels.len() {
        None
    } else {
        let x1 = if index > 0 {
            x + 2
        } else {
            x
        };
        if x1 >= width {
            None
        } else {
            let len = ellipsized(labels[index], (width - x1) as nat).len();
            if x1 <= target < x1 + len {
                Some(index as usize)
            } else {
                tab_hit(labels, target, width, index + 1, x1 + len)
            }
        }
    }
}

/// The labels of the tabs.
pub open spec fn tab_labels(tabs: Seq<TabItem>) -> Seq<Seq<char>> {
    tabs.map_values(|t: TabItem| t.label@)
}

/// Which tab a click at `column` lands on, for a bar `width` columns wide.
pub fn tab_index_at_column(tabs: &[TabItem], column: u16, width: u16) -> (res: Option<usize>)
    ensures
        res == tab_hit(tab_labels(tabs@), column as int, width as int, 0, 0),
{
    let ghost labels = tab_labels(tabs@);
    let mut x: usize = 0;
    let target = column as usize;
    let w = width as usize;
    let mut index: usize = 0;
    while index < tabs.len()
        invariant
            labels == tab_labels(tabs@),
            index <= tabs@.len(),
            x <= w,
            w == width as usize,
            target == column as usize,
            tab_hit(labels, target as int, w as int, index as int, x as int) == tab_hit(
                labels,
                target as int,
                w as int,
                0,
                0,
            ),
        decreases tabs@.len() - index,
    {
        let ghost x0 = x;
        if index > 0 {
            x = x + 2;
        }
        if x >= w {
            assert(tab_hit(labels, target as int, w as int, index as int, x0 as int) == None::<usize>);
            return None;
        }
        assert(labels[index as int] == tabs@[index as int].label@);
        let label = ellipsize(tabs[index].label.as_str(), w - x);
        let len = label.as_str().unicode_len();
        if target >= x && target < x + len {
            assert(tab_hit(labels, target as int, w as int, index as int, x0 as int) == Some(index));
            return Some(index);
        }
        x = x + len;
        index = index + 1;
    }
    None
}

/// `items` joined by `sep`.
pub open spec fn joined(items: Seq<Seq<char>>, sep: Seq<char>) -> Seq<char>
    decreases items.len(),
{
    if items.len() == 0 {
        Seq::empty()
    } else if items.len() == 1 {
        items[0]
    } else {
        joined(items.drop_last(), sep) + sep + items.last()
    }
}

/// `items` joined by `sep`.
pub fn join_strings(items: &[String], sep: &str) -> (res: String)
    ensures
        res@ == joined(strings_view(items@), sep@),
{
    let ghost v = strings_view(items@);
    let mut out = String::new();
    let mut i: usize = 0;
    while i < items.len()
        invariant
            i <= items@.len(),
            v == strings_view(items@),
            out@ == joined(v.take(i as int), sep@),
        decreases items.len() - i,
    {
        if i > 0 {
            out.append(sep);
        }
        out.append(items[i].as_str());
        assert(v.take(i + 1).drop_last() =~= v.take(i as int));
        assert(v.take(i + 1).last() == items@[i as int]@);
        i = i + 1;
    }
    assert(v.take(items@.len() as int) =~= v);
    out
}

/// The startup line naming the bindings a terminal intercepts: up to three
/// examples, then `…` for the rest.
pub open spec fn intercept_warning(affected: Seq<Seq<char>>) -> Option<Seq<char>> {
    if affected.len() == 0 {
        None
    } else {
        let shown = joined(affected.take(if affected.len() < 3 { affected.len() as int } else { 3 }), seq![',', ' ']);
        let suffix = if affected.len() > 3 {
            seq![',', ' ', '…']
        } else {
            Seq::empty()
        };
        Some(
            "Ghostty intercepts "@ + decimal(affected.len()) + " bindings: "@ + shown + suffix
                + " — run inspector.open for details"@,
        )
    }
}

/// Formats the startup warning about intercepted bindings, showing up to 3
/// example chords; `None` when nothing is affected.
pub fn format_intercept_warning(affected: &[String]) -> (res: Option<String>)
    ensures
        res is None <==> affected@.len() == 0,
        res matches Some(s) ==> Some(s@) == intercept_warning(strings_view(affected@)),
{
    let n = affected.len();
    if n == 0 {
        return None;
    }
    let ghost items = strings_view(affected@);
    let head = "Ghostty intercepts ";
    let middle = " bindings: ";
    let sep = ", ";
    let more = ", …";
    let tail = " — run inspector.open for details";
    proof {
        reveal_strlit("Ghostty intercepts ");
        reveal_strlit(" bindings: ");
        reveal_strlit(", ");
        reveal_strlit(", …");
        reveal_strlit(" — run inspector.open for details");
        assert(sep@ =~= seq![',', ' ']);
        assert(more@ =~= seq![',', ' ', '…']);
    }
    let shown_count = if n < 3 {
        n
    } else {
        3
    };
    let mut shown = affected[0].clone();
    let mut i: usize = 1;
    assert(items.take(1) =~= seq![items[0]]);
    while i < shown_count
        invariant
            1 <= i <= shown_count,
            shown_count <= n,
            n == affected@.len(),
            items == strings_view(affected@),
            sep@ == seq![',', ' '],
            shown@ == joined(items.take(i as int), seq![',', ' ']),
        decreases shown_count - i,
    {
        shown.append(sep);
        shown.append(affected[i].as_str());
        assert(items.take(i + 1).drop_last() =~= items.take(i as int));
        i = i + 1;
    }
    let mut line = head.to_owned();
    line.append(decimal_string(n).as_str());
    line.append(middle);
    line.append(shown.as_str());
    if n > 3 {
        line.append(more);
    }
    line.append(tail);
    assert(line@ =~= intercept_warning(items).unwrap());
    Some(line)
}

/// How long the input loop waits, in milliseconds, when nothing is pending.
pub const IDLE_POLL_MS: i32 = 100;

/// How long the input loop may wait for input: the rest of the key-sequence
/// timeout while a sequence is pending (`elapsed_ms` since its first key),
/// capped at `i32::MAX`, 0 once it has run out, and the idle interval when
/// nothing is pending.
pub open spec fn poll_timeout_spec(elapsed_ms: Option<u64>, timeout_ms: u64) -> i32 {
    match elapsed_ms {
        Some(elapsed) => if elapsed >= timeout_ms {
            0
        } else if timeout_ms - elapsed > i32::MAX {
            i32::MAX
        } else {
            (timeout_ms - elapsed) as i32
        },
        None => IDLE_POLL_MS,
    }
}

/// The input loop's poll timeout (see [`poll_timeout_spec`]).
pub fn poll_timeout_ms(elapsed_ms: Option<u64>, timeout_ms: u64) -> (res: i32)
    ensures
        res == poll_timeout_spec(elapsed_ms, timeout_ms),
{
    match elapsed_ms {
        Some(elapsed) => {
            if elapsed >= timeout_ms {
                0
            } else {
                let rest = timeout_ms - elapsed;
                if rest > 2147483647u64 {
                    i32::MAX
                } else {
                    rest as i32
                }
            }
        },
        None => IDLE_POLL_MS,
    }
}

/// `a`, or `b` when `a` is past it.
pub open spec fn at_most(a: int, b: int) -> int {
    if a < b {
        a
    } else {
        b
    }
}

/// The texts of the tab bar from tab `index` on, starting at column `x` of
/// a bar `width` wide: two spaces before every tab but the first, then the
/// label shortened to the columns left (reversed for the active tab), until
/// the bar is full. Each text moves the column on by its display width.
pub open spec fn tab_bar_from(tabs: Seq<TabItem>, width: int, index: int, x: int) -> Seq<DrawnText>
    decreases tabs.len() - index,
{
    if index < 0 || index >= tabs.len() {
        Seq::empty()
    } else {
        let sep: Seq<DrawnText> = if index > 0 {
            seq![(x as u16, 0u16, "  "@, TextStyle::Normal)]
        } else {
            Seq::empty()
        };
        let x1 = if index > 0 {
            at_most(x + 2, width)
        } else {
            x
        };
        if x1 >= width {
            sep
        } else {
            let label = ellipsized(tabs[index].label@, (width - x1) as nat);
            let style = if tabs[index].active {
                TextStyle::Reverse
            } else {
                TextStyle::Normal
            };
            sep + seq![(x1 as u16, 0u16, label, style)] + tab_bar_from(
                tabs,
                width,
                index + 1,
                at_most(x1 + display_width(label), width),
            )
        }
    }
}

/// What the tab bar draws on the top row of a `width` x `height` screen.
pub open spec fn tab_bar_spec(tabs: Seq<TabItem>, width: u16, height: u16) -> Seq<DrawnText> {
    if height == 0 {
        Seq::empty()
    } else {
        tab_bar_from(tabs, width as int, 0, 0)
    }
}

/// What the tab bar draws (see [`tab_bar_spec`]).
pub fn tab_bar_rows(tabs: &[TabItem], width: u16, height: u16) -> (res: Vec<(u16, u16, String, TextStyle)>)
    ensures
        drawn(res@) == tab_bar_spec(tabs@, width, height),
{
    let mut out: Vec<(u16, u16, String, TextStyle)> = Vec::new();
    if height == 0 {
        assert(drawn(out@) =~= Seq::<DrawnText>::empty());
        return out;
    }
    let w = width as usize;
    let mut x: usize = 0;
    let mut index: usize = 0;
    let ghost whole = tab_bar_from(tabs@, w as int, 0, 0);
    assert(drawn(out@) + whole =~= whole);
    while index < tabs.len()
        invariant_except_break
            drawn(out@) + tab_bar_from(tabs@, w as int, index as int, x as int) == whole,
        invariant
            index <= tabs@.len(),
            w == width as usize,
            x <= w,
            whole == tab_bar_from(tabs@, w as int, 0, 0),
        ensures
            drawn(out@) == whole,
        decreases tabs.len() - index,
    {
        let ghost rest = tab_bar_from(tabs@, w as int, index as int, x as int);
        let ghost before = drawn(out@);
        let ghost sep: Seq<DrawnText> = if index > 0 {
            seq![(x as u16, 0u16, "  "@, TextStyle::Normal)]
        } else {
            Seq::empty()
        };
        if index > 0 {
            let ghost b = out@;
            out.push((x as u16, 0u16, "  ".to_owned(), TextStyle::Normal));
            assert(drawn(out@) =~= drawn(b).push((x as u16, 0u16, "  "@, TextStyle::Normal)));
            x = if x + 2 < w {
                x + 2
            } else {
                w
            };
        }
        assert(drawn(out@) =~= before + sep);
        if x >= w {
            assert(rest == sep);
            assert(drawn(out@) =~= whole);
            break;
        }
        let label = ellipsize(tabs[index].label.as_str(), w - x);
        let lw = str_width(label.as_str());
        let next = if lw < w - x {
            x + lw
        } else {
            w
        };
        let style = if tabs[index].active {
            TextStyle::Reverse
        } else {
            TextStyle::Normal
        };
        let ghost b = out@;
        let ghost item = (x as u16, 0u16, label@, style);
        out.push((x as u16, 0u16, label, style));
        assert(drawn(out@) =~= drawn(b).push(item));
        let ghost tail = tab_bar_from(tabs@, w as int, index + 1, next as int);
        assert(rest == sep + seq![item] + tail);
        x = next;
        index = index + 1;
        assert(drawn(out@) + tab_bar_from(tabs@, w as int, index as int, x as int) =~= whole);
    }
    out
}

} // verus!