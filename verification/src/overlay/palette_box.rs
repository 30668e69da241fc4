//! What the command palette draws: a box with a title, the query line, one
//! row per listed action with its key binding (dimmed where the terminal
//! will not deliver the key), and a count of the rows shown.
//!
//! The result is the list of texts to put on the screen, each with its
//! cell and style, in drawing order.

use vstd::prelude::*;

use crate::overlay::palette::{scroll_offset, scroll_offset_spec, CommandPalette};
use crate::text::{decimal, decimal_string, push_char};

verus! {

broadcast use {vstd::seq::group_seq_axioms, vstd::seq_lib::group_seq_properties};

/// How an overlay text is drawn.
#[derive(Debug, Clone, Copy, PartialEq, Eq, Structural)]
pub enum TextStyle {
    Normal,
    Dim,
    Reverse,
}

/// One listed action: its name, the key bound to it, whether that key cannot
/// arrive in this terminal, and a disabled binding that lost to a live one.
#[derive(Debug, Clone)]
pub struct PaletteItem {
    pub name: String,
    pub binding: Option<String>,
    pub undelivered: bool,
    pub lost: Option<String>,
}

/// Width of the action-name column.
pub const NAME_COLUMN: usize = 32;

/// `s` cut to its first `w` characters.
pub open spec fn clipped(s: Seq<char>, w: nat) -> Seq<char> {
    if s.len() <= w {
        s
    } else {
        s.take(w as int)
    }
}

/// `s` padded with spaces to `w` characters.
pub open spec fn padded(s: Seq<char>, w: nat) -> Seq<char> {
    if s.len() >= w {
        s
    } else {
        s + repeated(' ', (w - s.len()) as nat)
    }
}

/// `c`, `n` times.
pub open spec fn repeated(c: char, n: nat) -> Seq<char> {
    Seq::new(n, |_i: int| c)
}

/// A border line `width` wide: `left`, the title (cut to fit), `fill` up to
/// the end, and `right`.
pub open spec fn frame_spec(left: char, fill: char, right: char, title: Seq<char>, width: nat) -> Seq<char> {
    let inner: nat = if width >= 2 {
        (width - 2) as nat
    } else {
        0
    };
    let t = clipped(title, inner);
    seq![left] + t + repeated(fill, (inner - t.len()) as nat) + seq![right]
}

/// A row's text in its own style (`head`) and the dimmed rest (`tail`).
pub open spec fn item_parts(item: PaletteItem) -> (Seq<char>, Seq<char>) {
    match item.binding {
        Some(b) => if item.undelivered {
            (padded(item.name@, NAME_COLUMN as nat), b@ + "  ✗ undelivered"@)
        } else {
            match item.lost {
                Some(l) => (padded(item.name@, NAME_COLUMN as nat) + b@, "  ✗ "@ + l@ + " undelivered"@),
                None => (padded(item.name@, NAME_COLUMN as nat) + b@, Seq::empty()),
            }
        },
        None => (item.name@, Seq::empty()),
    }
}

/// A text to draw: column, row, text, style.
pub type DrawnText = (u16, u16, Seq<char>, TextStyle);

/// The texts of a list of draw commands.
pub open spec fn drawn(v: Seq<(u16, u16, String, TextStyle)>) -> Seq<DrawnText> {
    v.map_values(|c: (u16, u16, String, TextStyle)| (c.0, c.1, c.2@, c.3))
}

/// How many item rows fit a screen `height` rows tall: between 1 and 10.
pub open spec fn max_rows(height: u16) -> nat {
    let h = height - 6;
    if h < 1 {
        1
    } else if h > 10 {
        10
    } else {
        h as nat
    }
}

/// Line `r` of the box, `box_height` lines and `box_width` columns, that
/// shows `shown` of `total` items.
pub open spec fn frame_row(r: int, box_height: int, box_width: nat, shown: nat, total: nat) -> Seq<char> {
    if r == 0 {
        frame_spec('╭', '─', '╮', " Command Palette "@, box_width)
    } else if r == box_height - 1 {
        frame_spec('╰', '─', '╯', seq![' '] + decimal(shown) + seq!['/'] + decimal(total) + seq![' '], box_width)
    } else {
        seq!['│'] + repeated(' ', (box_width - 2) as nat) + seq!['│']
    }
}

/// The commands for item row `row` (item `index`), `inner` columns wide:
/// the row padded to the full width, reversed when selected, then the dimmed
/// tail over it when the row is not selected and the tail starts inside.
pub open spec fn row_cmds(item: PaletteItem, selected: bool, row: int, inner: nat) -> Seq<DrawnText> {
    let head = item_parts(item).0;
    let tail = item_parts(item).1;
    let line = padded(clipped(head + tail, inner), inner);
    let y = (3 + row) as u16;
    let first = seq![(4u16, y, line, if selected { TextStyle::Reverse } else { TextStyle::Normal })];
    if tail.len() > 0 && !selected && head.len() < inner {
        first.push(((4 + head.len()) as u16, y, line.skip(head.len() as int), TextStyle::Dim))
    } else {
        first
    }
}

/// The commands of the first `n` item rows, starting at item `offset`.
pub open spec fn item_cmds(items: Seq<PaletteItem>, selected: usize, offset: int, inner: nat, n: int) -> Seq<DrawnText>
    decreases n,
{
    if n <= 0 {
        Seq::empty()
    } else {
        item_cmds(items, selected, offset, inner, n - 1) + row_cmds(
            items[offset + n - 1],
            offset + n - 1 == selected,
            n - 1,
            inner,
        )
    }
}

/// Everything the palette draws on a `width` x `height` screen: nothing when
/// it is hidden or the screen is under 12 x 6; else the box lines (dim) from
/// row 1 at column 2, the query line, and the visible item rows.
pub open spec fn palette_rows_spec(
    visible: bool,
    query: Seq<char>,
    selected: usize,
    items: Seq<PaletteItem>,
    width: u16,
    height: u16,
) -> Seq<DrawnText> {
    if !visible || height < 6 || width < 12 {
        Seq::empty()
    } else {
        let box_width = (width - 4) as nat;
        let inner = (box_width - 4) as nat;
        let max = max_rows(height);
        let shown: nat = if items.len() < max {
            items.len()
        } else {
            max
        };
        let box_height = shown + 3;
        let offset = scroll_offset_spec(selected, items.len() as usize, max as usize);
        Seq::new(box_height, |r: int| (2u16, (1 + r) as u16, frame_row(r, box_height as int, box_width, shown, items.len()), TextStyle::Dim))
            + seq![(4u16, 2u16, clipped(seq!['>', ' '] + query, inner), TextStyle::Normal)]
            + item_cmds(items, selected, offset as int, inner, shown as int)
    }
}

/// Appends `c` to `s`, `n` times.
pub(crate) fn push_repeated(s: &mut String, c: char, n: usize)
    ensures
        final(s)@ == old(s)@ + repeated(c, n as nat),
{
    let mut i: usize = 0;
    while i < n
        invariant
            i <= n,
            s@ == old(s)@ + repeated(c, i as nat),
        decreases n - i,
    {
        push_char(s, c);
        i = i + 1;
        assert(s@ =~= old(s)@ + repeated(c, i as nat));
    }
}

/// `text` cut to its first `width` characters.
pub(crate) fn clip_text(text: &str, width: usize) -> (res: String)
    ensures
        res@ == clipped(text@, width as nat),
{
    if text.unicode_len() <= width {
        text.to_owned()
    } else {
        let res = text.substring_char(0, width).to_owned();
        assert(res@ =~= text@.take(width as int));
        res
    }
}

/// `text` padded with spaces to `width` characters.
pub(crate) fn pad_text(text: String, width: usize) -> (res: String)
    ensures
        res@ == padded(text@, width as nat),
{
    let n = text.as_str().unicode_len();
    if n >= width {
        text
    } else {
        let mut out = text;
        push_repeated(&mut out, ' ', width - n);
        out
    }
}

/// A border line (see [`frame_spec`]).
pub(crate) fn frame_line(left: char, fill: char, right: char, title: &str, width: usize) -> (res: String)
    ensures
        res@ == frame_spec(left, fill, right, title@, width as nat),
{
    let inner = width.saturating_sub(2);
    let t = clip_text(title, inner);
    let tl = t.as_str().unicode_len();
    let mut out = String::new();
    push_char(&mut out, left);
    out.append(t.as_str());
    push_repeated(&mut out, fill, inner - tl);
    push_char(&mut out, right);
    out
}

/// A row's head and tail (see [`item_parts`]).
fn row_parts(item: &PaletteItem) -> (res: (String, String))
    ensures
        res.0@ == item_parts(*item).0,
        res.1@ == item_parts(*item).1,
{
    match &item.binding {
        Some(b) => {
            let mut head = pad_text(item.name.clone(), NAME_COLUMN);
            if item.undelivered {
                let mut tail = b.clone();
                tail.append("  ✗ undelivered");
                (head, tail)
            } else {
                head.append(b.as_str());
                match &item.lost {
                    Some(l) => {
                        let mut tail = String::new();
                        tail.append("  ✗ ");
                        tail.append(l.as_str());
                        tail.append(" undelivered");
                        assert(tail@ =~= "  ✗ "@ + l@ + " undelivered"@);
                        (head, tail)
                    },
                    None => (head, String::new()),
                }
            }
        },
        None => (item.name.clone(), String::new()),
    }
}

/// What the palette draws on a `width` x `height` screen (see
/// [`palette_rows_spec`]).
pub fn palette_rows(palette: &CommandPalette, items: &[PaletteItem], width: u16, height: u16) -> (res: Vec<(u16, u16, String, TextStyle)>)
    ensures
        drawn(res@) == palette_rows_spec(palette.visible, palette.query@, palette.selected, items@, width, height),
{
    let mut out: Vec<(u16, u16, String, TextStyle)> = Vec::new();
    if !palette.visible || height < 6 || width < 12 {
        assert(drawn(out@) =~= Seq::<DrawnText>::empty());
        return out;
    }
    let box_width = (width - 4) as usize;
    let inner = box_width - 4;
    let h = height - 6;
    let max: usize = if h < 1 {
        1
    } else if h > 10 {
        10
    } else {
        h as usize
    };
    let total = items.len();
    let shown = if total < max {
        total
    } else {
        max
    };
    let box_height = shown + 3;
    let ghost frame = Seq::new(
        box_height as nat,
        |r: int| (2u16, (1 + r) as u16, frame_row(r, box_height as int, box_width as nat, shown as nat, total as nat), TextStyle::Dim),
    );
    let mut row: usize = 0;
    while row < box_height
        invariant
            row <= box_height,
            box_height == shown + 3,
            shown <= 10,
            box_width >= 8,
            drawn(out@) == frame.take(row as int),
            frame == Seq::new(
                box_height as nat,
                |r: int| (2u16, (1 + r) as u16, frame_row(r, box_height as int, box_width as nat, shown as nat, total as nat), TextStyle::Dim),
            ),
        decreases box_height - row,
    {
        let line = if row == 0 {
            let title = " Command Palette ";
            frame_line('╭', '─', '╮', title, box_width)
        } else if row == box_height - 1 {
            let mut count = String::new();
            push_char(&mut count, ' ');
            count.append(decimal_string(shown).as_str());
            push_char(&mut count, '/');
            count.append(decimal_string(total).as_str());
            push_char(&mut count, ' ');
            assert(count@ =~= seq![' '] + decimal(shown as nat) + seq!['/'] + decimal(total as nat) + seq![' ']);
            frame_line('╰', '─', '╯', count.as_str(), box_width)
        } else {
            let mut s = String::new();
            push_char(&mut s, '│');
            push_repeated(&mut s, ' ', box_width - 2);
            push_char(&mut s, '│');
            assert(s@ =~= seq!['│'] + repeated(' ', (box_width - 2) as nat) + seq!['│']);
            s
        };
        assert(line@ == frame_row(row as int, box_height as int, box_width as nat, shown as nat, total as nat));
        let ghost before = out@;
        out.push((2u16, (1 + row) as u16, line, TextStyle::Dim));
        assert(drawn(out@) =~= drawn(before).push((2u16, (1 + row) as u16, line@, TextStyle::Dim)));
        row = row + 1;
        assert(drawn(out@) =~= frame.take(row as int));
    }
    assert(frame.take(box_height as int) =~= frame);
    let mut query = String::new();
    query.append("> ");
    query.append(palette.query.as_str());
    proof {
        reveal_strlit("> ");
        assert(query@ =~= seq!['>', ' '] + palette.query@);
    }
    let ghost before = out@;
    out.push((4u16, 2u16, clip_text(query.as_str(), inner), TextStyle::Normal));
    let ghost prefix = drawn(out@);
    assert(prefix =~= frame + seq![(4u16, 2u16, clipped(seq!['>', ' '] + palette.query@, inner as nat), TextStyle::Normal)]);
    let offset = scroll_offset(palette.selected, total, max);
    proof {
        if total > max {
            assert(offset + max <= total || offset == 0);
        }
    }
    let mut r: usize = 0;
    while r < shown
        invariant
            r <= shown,
            shown <= 10,
            shown == (if total < max { total } else { max }),
            total == items@.len(),
            offset == scroll_offset_spec(palette.selected, total, max),
            offset == 0 || offset + max <= total,
            inner + 8 <= width,
            drawn(out@) == prefix + item_cmds(items@, palette.selected, offset as int, inner as nat, r as int),
        decreases shown - r,
    {
        let index = offset + r;
        let item = &items[index];
        let (head, tail) = row_parts(item);
        let head_len = head.as_str().unicode_len();
        let tail_empty = tail.as_str().unicode_len() == 0;
        let mut text = head;
        text.append(tail.as_str());
        let line = pad_text(clip_text(text.as_str(), inner), inner);
        let is_selected = index == palette.selected;
        let y = (3 + r) as u16;
        let ghost before = out@;
        let ghost line_v = line@;
        let dim = if !tail_empty && !is_selected && head_len < inner {
            let mut rest = String::new();
            let n = line.as_str().unicode_len();
            rest.append(line.as_str().substring_char(head_len, n));
            Some(rest)
        } else {
            None
        };
        out.push((4u16, y, line, if is_selected { TextStyle::Reverse } else { TextStyle::Normal }));
        match dim {
            Some(rest) => {
                assert(rest@ =~= line_v.skip(head_len as int));
                out.push(((4 + head_len) as u16, y, rest, TextStyle::Dim));
            },
            None => {},
        }
        assert(drawn(out@) =~= drawn(before) + row_cmds(items@[index as int], index == palette.selected, r as int, inner as nat));
        r = r + 1;
    }
    out
}

/// Line `r` of a panel box `box_height` lines and `box_width` columns tall
/// and wide: the title border, the footer border, or blank between sides.
pub open spec fn box_line(r: int, box_height: int, box_width: nat, title: Seq<char>, footer: Seq<char>) -> Seq<char> {
    if r == 0 {
        frame_spec('╭', '─', '╮', title, box_width)
    } else if r == box_height - 1 {
        frame_spec('╰', '─', '╯', footer, box_width)
    } else {
        seq!['│'] + repeated(' ', (box_width - 2) as nat) + seq!['│']
    }
}

/// The dim lines of a panel box drawn from row `top` at column 2.
pub open spec fn box_frame(top: u16, box_height: u16, box_width: nat, title: Seq<char>, footer: Seq<char>) -> Seq<DrawnText> {
    Seq::new(box_height as nat, |r: int| (2u16, (top + r) as u16, box_line(r, box_height as int, box_width, title, footer), TextStyle::Dim))
}

/// The lines of a panel box (see [`box_frame`]).
pub fn box_lines(top: u16, box_height: u16, box_width: usize, title: &str, footer: &str) -> (res: Vec<(u16, u16, String, TextStyle)>)
    requires
        top + box_height <= u16::MAX,
        box_width >= 2,
    ensures
        drawn(res@) == box_frame(top, box_height, box_width as nat, title@, footer@),
{
    let mut out: Vec<(u16, u16, String, TextStyle)> = Vec::new();
    let mut row: u16 = 0;
    let ghost frame = box_frame(top, box_height, box_width as nat, title@, footer@);
    while row < box_height
        invariant
            row <= box_height,
            top + box_height <= u16::MAX,
            box_width >= 2,
            frame == box_frame(top, box_height, box_width as nat, title@, footer@),
            drawn(out@) == frame.take(row as int),
        decreases box_height - row,
    {
        let line = if row == 0 {
            frame_line('╭', '─', '╮', title, box_width)
        } else if row == box_height - 1 {
            frame_line('╰', '─', '╯', footer, box_width)
        } else {
            let mut s = String::new();
            push_char(&mut s, '│');
            push_repeated(&mut s, ' ', box_width - 2);
            push_char(&mut s, '│');
            assert(s@ =~= seq!['│'] + repeated(' ', (box_width - 2) as nat) + seq!['│']);
            s
        };
        assert(line@ == box_line(row as int, box_height as int, box_width as nat, title@, footer@));
        let ghost before = out@;
        out.push((2u16, top + row, line, TextStyle::Dim));
        assert(drawn(out@) =~= drawn(before).push((2u16, (top + row) as u16, line@, TextStyle::Dim)));
        row = row + 1;
        assert(drawn(out@) =~= frame.take(row as int));
    }
    assert(frame.take(box_height as int) =~= frame);
    out
}

} // verus!