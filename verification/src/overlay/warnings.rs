//! Startup panel for configuration warnings. It opens when there are any,
//! any key dismisses it, and a panel that cannot be drawn never takes input.

use vstd::prelude::*;
use vstd::string::*;

use crate::model::buffer::strings_view;
use crate::overlay::wrap::{as_strs, can_draw, can_draw_spec, panel_rows, strs_view, wrap_row, wrapped, wrapped_rows};
use crate::text::{decimal, decimal_string};

use crate::overlay::palette_box::{box_frame, box_lines, drawn, DrawnText, TextStyle};

verus! {

broadcast use {vstd::seq::group_seq_axioms, vstd::seq_lib::group_seq_properties};

#[derive(Debug, Clone)]
pub struct WarningsOverlay {
    pub visible: bool,
    pub lines: Vec<String>,
}

impl Default for WarningsOverlay {
    fn default() -> (res: Self)
        ensures
            !res.visible,
            res.lines@.len() == 0,
    {
        WarningsOverlay { visible: false, lines: Vec::new() }
    }
}

impl WarningsOverlay {
    /// Stores the configuration warnings and shows the panel when there are any.
    pub fn set_startup_warnings(&mut self, lines: Vec<String>)
        ensures
            final(self).visible == (lines@.len() > 0),
            final(self).lines == lines,
    {
        self.visible = lines.len() > 0;
        self.lines = lines;
    }

    /// Reopens the panel; `false` when there is nothing to show.
    pub fn reopen(&mut self) -> (res: bool)
        ensures
            res == (old(self).lines@.len() > 0),
            final(self).visible == res,
            final(self).lines == old(self).lines,
    {
        self.visible = self.lines.len() > 0;
        self.visible
    }

    /// Hides the panel; the warnings are kept.
    pub fn close(&mut self)
        ensures
            !final(self).visible,
            final(self).lines == old(self).lines,
    {
        self.visible = false;
    }

    /// Whether the panel takes the next input event: exactly when it is shown
    /// and the screen is large enough to draw it.
    pub fn blocks_input(&self, screen_width: u16, screen_height: u16) -> (res: bool)
        ensures
            res == (self.visible && can_draw_spec(screen_width, screen_height)),
    {
        self.visible && can_draw(screen_width, screen_height)
    }
}

/// The marker that stands for `hidden` rows that do not fit.
pub open spec fn more_marker(hidden: nat) -> Seq<char> {
    "… "@ + decimal(hidden) + " more line(s)"@
}

/// The body of the warnings panel: the wrapped rows, and when they exceed
/// `max_rows`, the first `max_rows - 1` of them and a marker counting the rest.
pub open spec fn body_rows_spec(lines: Seq<Seq<char>>, width: int, max_rows: int) -> Seq<Seq<char>> {
    let rows = panel_rows(lines, width);
    if rows.len() > max_rows {
        let hidden = rows.len() - (max_rows - 1);
        rows.take(max_rows - 1).push(wrapped(more_marker(hidden as nat), width)[0])
    } else {
        rows
    }
}

/// `"… {count} more line(s)"`.
pub fn more_line(count: usize) -> (res: String)
    ensures
        res@ == more_marker(count as nat),
{
    let head = "… ";
    let tail = " more line(s)";
    proof {
        reveal_strlit("… ");
        reveal_strlit(" more line(s)");
    }
    let mut s = head.to_owned();
    s.append(decimal_string(count).as_str());
    s.append(tail);
    s
}

/// Warning lines wrapped to `width` display columns; when they exceed
/// `max_rows`, the last row becomes an explicit `… N more line(s)` marker.
pub fn body_rows(lines: &[String], width: usize, max_rows: usize) -> (res: Vec<String>)
    requires
        max_rows > 0 || lines@.len() == 0,
    ensures
        strings_view(res@) == body_rows_spec(strings_view(lines@), width as int, max_rows as int),
        res@.len() <= max_rows,
{
    let borrowed = as_strs(lines);
    let mut rows = wrapped_rows(borrowed.as_slice(), width);
    let ghost all = strings_view(rows@);
    if rows.len() > max_rows {
        proof {
            if lines@.len() == 0 {
                assert(strs_view(borrowed@) =~= Seq::<Seq<char>>::empty());
                assert(all.len() == 0);
            }
        }
        let hidden = rows.len() - (max_rows - 1);
        rows.truncate(max_rows - 1);
        assert(strings_view(rows@) =~= all.take(max_rows - 1));
        let marker = more_line(hidden);
        let mut marker_rows = wrap_row(marker.as_str(), width);
        assert(marker_rows@.len() > 0);
        let first = marker_rows.swap_remove(0);
        let ghost before = rows@;
        rows.push(first);
        assert(strings_view(rows@) =~= strings_view(before).push(first@));
    }
    rows
}

/// How many body rows a panel may use on a screen `height` rows tall: the
/// tab bar and one editor row stay visible; between 1 and 20.
pub open spec fn panel_max_rows(height: u16) -> int {
    let rows = height - 5;
    if rows < 1 {
        1
    } else if rows > 20 {
        20
    } else {
        rows
    }
}

/// What the warnings panel draws on a `width` x `height` screen: nothing
/// when it is hidden or the screen is too small; else a box right above the
/// status bar, titled with the number of warnings and footed with how to
/// dismiss it, holding the wrapped warning rows.
pub open spec fn warnings_rows_spec(o: WarningsOverlay, width: u16, height: u16) -> Seq<DrawnText> {
    if !o.visible || !can_draw_spec(width, height) {
        Seq::empty()
    } else {
        let box_width = (width - 4) as nat;
        let body = body_rows_spec(strings_view(o.lines@), box_width - 4, panel_max_rows(height));
        let box_height = (body.len() + 2) as u16;
        let top = (height - 1 - box_height) as u16;
        box_frame(
            top,
            box_height,
            box_width,
            " "@ + decimal(o.lines@.len()) + " config warning(s) "@,
            " press any key to dismiss — warnings.show reopens "@,
        ) + Seq::new(body.len(), |r: int| (4u16, (top + 1 + r) as u16, body[r], TextStyle::Normal))
    }
}

impl WarningsOverlay {
    /// What the warnings panel draws (see [`warnings_rows_spec`]).
    pub fn rows(&self, width: u16, height: u16) -> (res: Vec<(u16, u16, String, TextStyle)>)
        ensures
            drawn(res@) == warnings_rows_spec(*self, width, height),
    {
        if !self.visible || !can_draw(width, height) {
            let out: Vec<(u16, u16, String, TextStyle)> = Vec::new();
            assert(drawn(out@) =~= Seq::<DrawnText>::empty());
            return out;
        }
        let box_width = (width - 4) as usize;
        let h = height - 5;
        let max_rows: usize = if h < 1 {
            1
        } else if h > 20 {
            20
        } else {
            h as usize
        };
        let body = body_rows(self.lines.as_slice(), box_width - 4, max_rows);
        let box_height = (body.len() + 2) as u16;
        let top = height - 1 - box_height;
        let mut title = " ".to_owned();
        title.append(decimal_string(self.lines.len()).as_str());
        title.append(" config warning(s) ");
        let mut out = box_lines(top, box_height, box_width, title.as_str(), " press any key to dismiss — warnings.show reopens ");
        let ghost frame = drawn(out@);
        let ghost bv = strings_view(body@);
        let mut r: usize = 0;
        while r < body.len()
            invariant
                r <= body@.len(),
                body@.len() + 3 <= height,
                top as int == height - 1 - (body@.len() + 2),
                bv == strings_view(body@),
                drawn(out@) == frame + Seq::new(r as nat, |t: int| (4u16, (top + 1 + t) as u16, bv[t], TextStyle::Normal)),
            decreases body.len() - r,
        {
            let ghost before = out@;
            let line = body[r].clone();
            let ghost lv = line@;
            out.push((4u16, top + 1 + r as u16, line, TextStyle::Normal));
            assert(drawn(out@) =~= drawn(before).push((4u16, (top + 1 + r) as u16, lv, TextStyle::Normal)));
            r = r + 1;
            assert(drawn(out@) =~= frame + Seq::new(r as nat, |t: int| (4u16, (top + 1 + t) as u16, bv[t], TextStyle::Normal)));
        }
        out
    }
}

} // verus!