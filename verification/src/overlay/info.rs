//! Startup info panel: configuration problems, shown until fixed, and facts
//! about the environment, shown until acknowledged. It scrolls so that every
//! row can be read before it is dismissed.

use vstd::prelude::*;
use vstd::string::*;

use crate::model::buffer::strings_view;
use crate::overlay::palette_box::{box_frame, box_lines, drawn, DrawnText, TextStyle};
use crate::overlay::warnings::{more_line, more_marker};
use crate::overlay::wrap::{as_strs, can_draw, can_draw_spec, panel_rows, strs_view, wrap_row, wrapped, wrapped_rows};
use crate::text::{add_signed, decimal, decimal_string, sat_add_signed};

verus! {

broadcast use {vstd::seq::group_seq_axioms, vstd::seq_lib::group_seq_properties};

#[derive(Debug, Clone)]
pub struct InfoOverlay {
    pub visible: bool,
    pub config_lines: Vec<String>,
    pub env_lines: Vec<String>,
    pub env_acknowledged: bool,
    /// First visible wrapped row.
    pub scroll: usize,
}

impl Default for InfoOverlay {
    fn default() -> (res: Self)
        ensures
            !res.visible,
            res.config_lines@.len() == 0,
            res.env_lines@.len() == 0,
            !res.env_acknowledged,
            res.scroll == 0,
    {
        InfoOverlay {
            visible: false,
            config_lines: Vec::new(),
            env_lines: Vec::new(),
            env_acknowledged: false,
            scroll: 0,
        }
    }
}

/// The panel's lines: the configuration section, a blank row when both
/// sections have lines, then the environment section.
pub open spec fn info_lines(config: Seq<Seq<char>>, env: Seq<Seq<char>>) -> Seq<Seq<char>> {
    config + (if config.len() > 0 && env.len() > 0 {
        seq![Seq::<char>::empty()]
    } else {
        Seq::empty()
    }) + env
}

/// Wrap width and row budget of the panel on a screen of this size.
pub open spec fn geometry_spec(screen_width: u16, screen_height: u16) -> (usize, usize) {
    let box_width: int = if screen_width >= 4 { screen_width - 4 } else { 0 };
    let inner: int = if box_width >= 4 { box_width - 4 } else { 0 };
    let rows: int = if screen_height >= 5 { screen_height - 5 } else { 0 };
    (
        (if inner >= 1 { inner } else { 1 }) as usize,
        (if rows < 1 { 1 } else if rows > 20 { 20 } else { rows }) as usize,
    )
}

/// Wrap width and row budget for a drawable screen: the box is inset two
/// columns on each side with two columns of padding, and the body leaves the
/// tab bar and at least one editor row visible.
pub fn geometry(screen_width: u16, screen_height: u16) -> (res: (usize, usize))
    ensures
        res == geometry_spec(screen_width, screen_height),
{
    let box_width = screen_width.saturating_sub(4);
    let inner = box_width.saturating_sub(4) as usize;
    let rows = screen_height.saturating_sub(5) as usize;
    (
        if inner >= 1 {
            inner
        } else {
            1
        },
        if rows < 1 {
            1
        } else if rows > 20 {
            20
        } else {
            rows
        },
    )
}

/// The marker for the rows above the window.
pub open spec fn above_marker(count: nat) -> Seq<char> {
    "… "@ + decimal(count) + " line(s) above"@
}

/// The `max_rows` window at `scroll` (clamped so the last row can be
/// reached), with markers replacing its first and last rows when rows are
/// hidden above or below — unless the window has fewer than three rows.
pub open spec fn visible_rows_spec(all: Seq<Seq<char>>, scroll: int, max_rows: int) -> Seq<Seq<char>> {
    let total = all.len() as int;
    if total <= max_rows {
        all
    } else {
        let s = if scroll < total - max_rows {
            scroll
        } else {
            total - max_rows
        };
        let shown = all.subrange(s, s + max_rows);
        if max_rows >= 3 {
            let top = if s > 0 {
                shown.update(0, above_marker((s + 1) as nat))
            } else {
                shown
            };
            let below = total - (s + max_rows);
            if below > 0 {
                top.update(max_rows - 1, more_marker((below + 1) as nat))
            } else {
                top
            }
        } else {
            shown
        }
    }
}

/// The rows shown for a scroll position, with explicit markers for hidden
/// rows above and below.
pub fn visible_rows(all: Vec<String>, scroll: usize, max_rows: usize) -> (res: Vec<String>)
    ensures
        strings_view(res@) == visible_rows_spec(strings_view(all@), scroll as int, max_rows as int),
        res@.len() == (if all@.len() <= max_rows { all@.len() } else { max_rows as nat }),
{
    let total = all.len();
    if total <= max_rows {
        return all;
    }
    let s = if scroll < total - max_rows {
        scroll
    } else {
        total - max_rows
    };
    let ghost av = strings_view(all@);
    let mut shown: Vec<String> = Vec::new();
    let mut i: usize = s;
    while i < s + max_rows
        invariant
            av == strings_view(all@),
            total == all@.len(),
            s + max_rows <= total,
            s <= i <= s + max_rows,
            strings_view(shown@) == av.subrange(s as int, i as int),
        decreases s + max_rows - i,
    {
        let ghost before = shown@;
        shown.push(all[i].clone());
        assert(strings_view(shown@) =~= strings_view(before).push(all@[i as int]@));
        assert(av.subrange(s as int, i + 1) =~= av.subrange(s as int, i as int).push(av[i as int]));
        i = i + 1;
    }
    if max_rows >= 3 {
        if s > 0 {
            let head = "… ";
            let tail = " line(s) above";
            proof {
                reveal_strlit("… ");
                reveal_strlit(" line(s) above");
            }
            let mut marker = head.to_owned();
            marker.append(decimal_string(s + 1).as_str());
            marker.append(tail);
            let ghost before = shown@;
            shown.set(0, marker);
            assert(strings_view(shown@) =~= strings_view(before).update(0, marker@));
        }
        let below = total - (s + max_rows);
        if below > 0 {
            let marker = more_line(below + 1);
            let ghost before = shown@;
            shown.set(max_rows - 1, marker);
            assert(strings_view(shown@) =~= strings_view(before).update(max_rows - 1, marker@));
        }
    }
    shown
}

/// The panel's rows on a screen of this size.
pub open spec fn info_rows(o: InfoOverlay, screen_width: u16, screen_height: u16) -> Seq<Seq<char>> {
    panel_rows(
        info_lines(strings_view(o.config_lines@), strings_view(o.env_lines@)),
        geometry_spec(screen_width, screen_height).0 as int,
    )
}

/// Whether dismissing the panel hands out the environment lines: only while
/// they are not acknowledged yet.
pub open spec fn dismiss_yields(o: InfoOverlay) -> bool {
    !o.env_acknowledged && o.env_lines@.len() > 0
}

/// The environment lines are handed out at most once: after a dismissal that
/// yields them, the next one (after any reopening) does not.
pub proof fn law_environment_acknowledged_once(o: InfoOverlay, after: InfoOverlay)
    requires
        dismiss_yields(o),
        after.env_acknowledged,
    ensures
        !dismiss_yields(after),
{
}

impl InfoOverlay {
    /// Stores both sections and decides startup visibility: configuration
    /// problems always open the panel, environment facts only until
    /// acknowledged.
    pub fn set_startup(&mut self, config_lines: Vec<String>, env_lines: Vec<String>, env_acknowledged: bool)
        ensures
            final(self).visible == (config_lines@.len() > 0 || (env_lines@.len() > 0 && !env_acknowledged)),
            final(self).config_lines == config_lines,
            final(self).env_lines == env_lines,
            final(self).env_acknowledged == env_acknowledged,
            final(self).scroll == 0,
    {
        self.visible = config_lines.len() > 0 || (env_lines.len() > 0 && !env_acknowledged);
        self.config_lines = config_lines;
        self.env_lines = env_lines;
        self.env_acknowledged = env_acknowledged;
        self.scroll = 0;
    }

    /// Reopens the full panel, acknowledged or not; `false` when there is
    /// nothing to show.
    pub fn reopen(&mut self) -> (res: bool)
        ensures
            res == (old(self).config_lines@.len() > 0 || old(self).env_lines@.len() > 0),
            final(self).visible == res,
            final(self).scroll == 0,
            final(self).config_lines == old(self).config_lines,
            final(self).env_lines == old(self).env_lines,
            final(self).env_acknowledged == old(self).env_acknowledged,
    {
        self.visible = self.config_lines.len() > 0 || self.env_lines.len() > 0;
        self.scroll = 0;
        self.visible
    }

    /// The configuration section, a blank separator when both sections have
    /// lines, then the environment section.
    pub fn lines(&self) -> (res: Vec<String>)
        ensures
            strings_view(res@) == info_lines(strings_view(self.config_lines@), strings_view(self.env_lines@)),
    {
        let mut out = crate::model::undo::clone_strings(&self.config_lines);
        if self.config_lines.len() > 0 && self.env_lines.len() > 0 {
            let ghost before = out@;
            out.push(String::new());
            assert(strings_view(out@) =~= strings_view(before).push(Seq::<char>::empty()));
        }
        let ghost mid = strings_view(out@);
        let mut i: usize = 0;
        while i < self.env_lines.len()
            invariant
                i <= self.env_lines@.len(),
                strings_view(out@) == mid + strings_view(self.env_lines@).take(i as int),
            decreases self.env_lines@.len() - i,
        {
            let ghost before = out@;
            out.push(self.env_lines[i].clone());
            assert(strings_view(out@) =~= strings_view(before).push(self.env_lines@[i as int]@));
            i = i + 1;
            assert(strings_view(self.env_lines@).take(i as int) =~= strings_view(self.env_lines@).take(i - 1).push(self.env_lines@[i - 1]@));
        }
        assert(strings_view(self.env_lines@).take(i as int) =~= strings_view(self.env_lines@));
        assert(strings_view(out@) =~= info_lines(strings_view(self.config_lines@), strings_view(self.env_lines@)));
        out
    }

    /// Scrolls by `delta` wrapped rows, clamped to the content; nothing
    /// happens on a screen too small to draw the panel.
    pub fn scroll_by(&mut self, delta: isize, screen_width: u16, screen_height: u16)
        ensures
            !can_draw_spec(screen_width, screen_height) ==> final(self).scroll == old(self).scroll,
            can_draw_spec(screen_width, screen_height) ==> {
                let total = info_rows(*old(self), screen_width, screen_height).len() as int;
                let rows = geometry_spec(screen_width, screen_height).1 as int;
                let max_scroll = if total > rows { total - rows } else { 0 };
                let moved = sat_add_signed(old(self).scroll, delta as int);
                final(self).scroll == (if moved < max_scroll { moved as int } else { max_scroll })
            },
            final(self).visible == old(self).visible,
            final(self).config_lines == old(self).config_lines,
            final(self).env_lines == old(self).env_lines,
            final(self).env_acknowledged == old(self).env_acknowledged,
    {
        if !can_draw(screen_width, screen_height) {
            return;
        }
        let (inner_width, max_rows) = geometry(screen_width, screen_height);
        let lines = self.lines();
        let borrowed = as_strs(&lines);
        let total = wrapped_rows(borrowed.as_slice(), inner_width).len();
        let max_scroll = total.saturating_sub(max_rows);
        let moved = add_signed(self.scroll, delta);
        self.scroll = if moved < max_scroll {
            moved
        } else {
            max_scroll
        };
    }

    /// Rows the panel shows per screenful (0 when it cannot be drawn).
    pub fn page_rows(&self, screen_width: u16, screen_height: u16) -> (res: isize)
        ensures
            res == (if can_draw_spec(screen_width, screen_height) {
                geometry_spec(screen_width, screen_height).1 as int
            } else {
                0
            }),
    {
        if !can_draw(screen_width, screen_height) {
            return 0;
        }
        let (_, rows) = geometry(screen_width, screen_height);
        rows as isize
    }

    /// Closes the panel. Returns the environment lines exactly once: on the
    /// first dismissal of a section not yet acknowledged.
    pub fn dismiss(&mut self) -> (res: Option<Vec<String>>)
        ensures
            !final(self).visible,
            !dismiss_yields(*old(self)) ==> res is None && final(self).env_acknowledged == old(
                self,
            ).env_acknowledged,
            dismiss_yields(*old(self)) ==> res is Some && strings_view(res.unwrap()@) == strings_view(
                old(self).env_lines@,
            ) && final(self).env_acknowledged,
            final(self).config_lines == old(self).config_lines,
            final(self).env_lines == old(self).env_lines,
            final(self).scroll == old(self).scroll,
    {
        self.visible = false;
        if self.env_acknowledged || self.env_lines.len() == 0 {
            return None;
        }
        self.env_acknowledged = true;
        Some(crate::model::undo::clone_strings(&self.env_lines))
    }

    /// Whether the panel takes the next input event: exactly when it is shown
    /// and the screen is large enough to draw it.
    pub fn blocks_input(&self, screen_width: u16, screen_height: u16) -> (res: bool)
        ensures
            res == (self.visible && can_draw_spec(screen_width, screen_height)),
    {
        self.visible && can_draw(screen_width, screen_height)
    }
}

/// The footer of the info panel: how to scroll when rows are hidden, else
/// how to dismiss it.
pub open spec fn info_footer(overflowing: bool) -> Seq<char> {
    if overflowing {
        " ↑/↓ scroll — any other key dismisses (info.show reopens) "@
    } else {
        " press any key to dismiss — info.show reopens "@
    }
}

/// What the info panel draws on a `width` x `height` screen: nothing when
/// it is hidden or the screen is too small; else a box titled " coda info "
/// right above the status bar, holding the window of wrapped rows at the
/// scroll offset, each cut to the box.
pub open spec fn info_draw_spec(o: InfoOverlay, width: u16, height: u16) -> Seq<DrawnText> {
    if !o.visible || !can_draw_spec(width, height) {
        Seq::empty()
    } else {
        let (inner, max_rows) = geometry_spec(width, height);
        let all = info_rows(o, width, height);
        let body = visible_rows_spec(all, o.scroll as int, max_rows as int);
        let box_height = (body.len() + 2) as u16;
        let top = (height - 1 - box_height) as u16;
        box_frame(top, box_height, (width - 4) as nat, " coda info "@, info_footer(all.len() > max_rows)) + Seq::new(
            body.len(),
            |r: int| (4u16, (top + 1 + r) as u16, wrapped(body[r], inner as int)[0], TextStyle::Normal),
        )
    }
}

impl InfoOverlay {
    /// What the info panel draws (see [`info_draw_spec`]).
    pub fn draw_rows(&self, width: u16, height: u16) -> (res: Vec<(u16, u16, String, TextStyle)>)
        ensures
            drawn(res@) == info_draw_spec(*self, width, height),
    {
        if !self.visible || !can_draw(width, height) {
            let out: Vec<(u16, u16, String, TextStyle)> = Vec::new();
            assert(drawn(out@) =~= Seq::<DrawnText>::empty());
            return out;
        }
        let (inner, max_rows) = geometry(width, height);
        let lines = self.lines();
        let borrowed = as_strs(lines.as_slice());
        let all = wrapped_rows(borrowed.as_slice(), inner);
        let overflowing = all.len() > max_rows;
        let body = visible_rows(all, self.scroll, max_rows);
        let box_height = (body.len() + 2) as u16;
        let top = height - 1 - box_height;
        let footer = if overflowing {
            " ↑/↓ scroll — any other key dismisses (info.show reopens) "
        } else {
            " press any key to dismiss — info.show reopens "
        };
        let mut out = box_lines(top, box_height, (width - 4) as usize, " coda info ", footer);
        let ghost frame = drawn(out@);
        let ghost bv = strings_view(body@);
        let mut r: usize = 0;
        while r < body.len()
            invariant
                r <= body@.len(),
                body@.len() + 3 <= height,
                top as int == height - 1 - (body@.len() + 2),
                bv == strings_view(body@),
                drawn(out@) == frame + Seq::new(
                    r as nat,
                    |t: int| (4u16, (top + 1 + t) as u16, wrapped(bv[t], inner as int)[0], TextStyle::Normal),
                ),
            decreases body.len() - r,
        {
            let ghost before = out@;
            let mut rows = wrap_row(body[r].as_str(), inner);
            assert(strings_view(rows@)[0] == rows@[0]@);
            let line = rows.swap_remove(0);
            let ghost lv = line@;
            out.push((4u16, top + 1 + r as u16, line, TextStyle::Normal));
            assert(drawn(out@) =~= drawn(before).push((4u16, (top + 1 + r) as u16, lv, TextStyle::Normal)));
            r = r + 1;
            assert(drawn(out@) =~= frame + Seq::new(
                r as nat,
                |t: int| (4u16, (top + 1 + t) as u16, wrapped(bv[t], inner as int)[0], TextStyle::Normal),
            ));
        }
        out
    }
}

} // verus!