//! Wrapping panel text to a display width, grapheme by grapheme.

use vstd::prelude::*;
use vstd::string::*;

use crate::model::buffer::strings_view;
use crate::text::{display_width, grapheme_strings, split_at_char, split_chars, str_width, text_clusters};

verus! {

broadcast use {vstd::seq::group_seq_axioms, vstd::seq_lib::group_seq_properties};

/// The rows finished so far, the row being filled, and its display width.
pub struct WrapState {
    pub rows: Seq<Seq<char>>,
    pub current: Seq<char>,
    pub width: int,
}

/// One grapheme added to a wrap: it starts a new row when it would push a
/// non-empty row past `width`.
pub open spec fn wrap_step(s: WrapState, g: Seq<char>, width: int) -> WrapState {
    let gw = display_width(g) as int;
    if s.width + gw > width && s.current.len() > 0 {
        WrapState { rows: s.rows.push(s.current), current: g, width: gw }
    } else {
        WrapState { rows: s.rows, current: s.current + g, width: s.width + gw }
    }
}

/// The wrap state after the graphemes `gs`.
pub open spec fn wrap_fold(gs: Seq<Seq<char>>, width: int) -> WrapState
    decreases gs.len(),
{
    if gs.len() == 0 {
        WrapState { rows: Seq::empty(), current: Seq::empty(), width: 0 }
    } else {
        wrap_step(wrap_fold(gs.drop_last(), width), gs.last(), width)
    }
}

/// `line` broken into rows of at most `width` display columns; a grapheme
/// wider than that gets a row of its own, and every line yields a row.
pub open spec fn wrapped(line: Seq<char>, width: int) -> Seq<Seq<char>> {
    let s = wrap_fold(text_clusters(line), width);
    s.rows.push(s.current)
}

/// Grapheme-safe wrap by display width. Breaks anywhere rather than at word
/// boundaries, so no character is ever dropped.
pub fn wrap_row(line: &str, width: usize) -> (res: Vec<String>)
    ensures
        strings_view(res@) == wrapped(line@, width as int),
        strings_view(res@).flatten() == line@,
{
    let graphemes = grapheme_strings(line);
    let ghost gs = strings_view(graphemes@);
    let mut rows: Vec<String> = Vec::new();
    let mut current = String::new();
    let mut current_width: u128 = 0;
    let mut i: usize = 0;
    let count = graphemes.len();
    assert(gs.take(0) =~= Seq::<Seq<char>>::empty());
    assert(strings_view(rows@) =~= Seq::<Seq<char>>::empty());
    assert(strings_view(rows@).flatten() + current@ =~= gs.take(0).flatten());
    while i < graphemes.len()
        invariant
            gs == strings_view(graphemes@),
            gs == text_clusters(line@),
            i <= gs.len(),
            current_width as int <= i as int * (usize::MAX as int),
            count == graphemes@.len(),
            wrap_fold(gs.take(i as int), width as int) == (WrapState {
                rows: strings_view(rows@),
                current: current@,
                width: current_width as int,
            }),
            strings_view(rows@).flatten() + current@ == gs.take(i as int).flatten(),
        decreases gs.len() - i,
    {
        let g = &graphemes[i];
        let gw = str_width(g.as_str());
        assert(gs.take(i + 1).drop_last() =~= gs.take(i as int));
        assert(gs.take(i + 1).last() == g@);
        proof {
            gs.take(i as int).lemma_flatten_push(g@);
            assert(gs.take(i as int).push(g@) =~= gs.take(i + 1));
        }
        let ghost before = rows@;
        let ghost cur0 = current@;
        let ghost cw0 = current_width as int;
        assert(cw0 + gw as int <= (i as int + 1) * (usize::MAX as int)) by (nonlinear_arith)
            requires
                cw0 <= i as int * (usize::MAX as int),
                gw <= usize::MAX,
        ;
        assert((i as int + 1) * (usize::MAX as int) < 0x1_0000_0000_0000_0000_0000_0000_0000_0000) by (nonlinear_arith)
            requires
                i < usize::MAX,
                usize::MAX <= 0xffff_ffff_ffff_ffff,
        ;
        if current_width + gw as u128 > width as u128 && current.as_str().unicode_len() > 0 {
            let finished = current;
            rows.push(finished);
            assert(strings_view(rows@) =~= strings_view(before).push(finished@));
            proof {
                strings_view(before).lemma_flatten_push(finished@);
            }
            current = g.clone();
            current_width = gw as u128;
        } else {
            current.append(g.as_str());
            current_width = current_width + gw as u128;
        }
        i = i + 1;
    }
    assert(gs.take(gs.len() as int) =~= gs);
    let ghost before = rows@;
    rows.push(current);
    assert(strings_view(rows@) =~= strings_view(before).push(current@));
    proof {
        strings_view(before).lemma_flatten_push(current@);
    }
    rows
}

/// The pieces of every line between its line breaks.
pub open spec fn split_all(lines: Seq<Seq<char>>) -> Seq<Seq<char>>
    decreases lines.len(),
{
    if lines.len() == 0 {
        Seq::empty()
    } else {
        split_all(lines.drop_last()) + split_chars(lines.last(), '\n')
    }
}

/// Every piece wrapped, rows in order.
pub open spec fn wrap_all(pieces: Seq<Seq<char>>, width: int) -> Seq<Seq<char>>
    decreases pieces.len(),
{
    if pieces.len() == 0 {
        Seq::empty()
    } else {
        wrap_all(pieces.drop_last(), width) + wrapped(pieces.last(), width)
    }
}

/// The rows a panel shows for `lines`: each line split at its line breaks,
/// then wrapped to `width` columns.
pub open spec fn panel_rows(lines: Seq<Seq<char>>, width: int) -> Seq<Seq<char>> {
    wrap_all(split_all(lines), width)
}

/// The text of string slices.
pub open spec fn strs_view(v: Seq<&str>) -> Seq<Seq<char>> {
    v.map_values(|s: &str| s@)
}

/// Appends the rows of `line` (split at line breaks, then wrapped) to `rows`.
fn push_line_rows(rows: &mut Vec<String>, line: &str, width: usize)
    ensures
        strings_view(final(rows)@) == strings_view(old(rows)@) + wrap_all(split_chars(line@, '\n'), width as int),
{
    let pieces = split_at_char(line, '\n');
    let ghost ps = strings_view(pieces@);
    let mut i: usize = 0;
    assert(ps.take(0) =~= Seq::<Seq<char>>::empty());
    assert(strings_view(rows@) =~= strings_view(old(rows)@) + wrap_all(ps.take(0), width as int));
    while i < pieces.len()
        invariant
            ps == strings_view(pieces@),
            ps == split_chars(line@, '\n'),
            i <= ps.len(),
            strings_view(rows@) == strings_view(old(rows)@) + wrap_all(ps.take(i as int), width as int),
        decreases ps.len() - i,
    {
        let wrapped_piece = wrap_row(pieces[i].as_str(), width);
        let ghost before = strings_view(rows@);
        let mut j: usize = 0;
        while j < wrapped_piece.len()
            invariant
                j <= wrapped_piece@.len(),
                strings_view(rows@) == before + strings_view(wrapped_piece@).take(j as int),
            decreases wrapped_piece@.len() - j,
        {
            let ghost b2 = rows@;
            rows.push(wrapped_piece[j].clone());
            assert(strings_view(rows@) =~= strings_view(b2).push(wrapped_piece@[j as int]@));
            j = j + 1;
            assert(strings_view(wrapped_piece@).take(j as int) =~= strings_view(wrapped_piece@).take(j - 1).push(wrapped_piece@[j - 1]@));
        }
        assert(strings_view(wrapped_piece@).take(j as int) =~= strings_view(wrapped_piece@));
        assert(ps.take(i + 1).drop_last() =~= ps.take(i as int));
        assert(ps[i as int] == pieces@[i as int]@);
        i = i + 1;
    }
    assert(ps.take(ps.len() as int) =~= ps);
}

/// Lines split at their line breaks and wrapped to `width` display columns.
pub fn wrapped_rows(lines: &[&str], width: usize) -> (res: Vec<String>)
    ensures
        strings_view(res@) == panel_rows(strs_view(lines@), width as int),
{
    let ghost ls = strs_view(lines@);
    let mut rows: Vec<String> = Vec::new();
    let mut i: usize = 0;
    assert(ls.take(0) =~= Seq::<Seq<char>>::empty());
    assert(strings_view(rows@) =~= Seq::<Seq<char>>::empty());
    while i < lines.len()
        invariant
            ls == strs_view(lines@),
            i <= ls.len(),
            strings_view(rows@) == panel_rows(ls.take(i as int), width as int),
        decreases ls.len() - i,
    {
        push_line_rows(&mut rows, lines[i], width);
        assert(ls.take(i + 1).drop_last() =~= ls.take(i as int));
        assert(ls[i as int] == lines@[i as int]@);
        proof {
            lemma_wrap_all_concat(split_all(ls.take(i as int)), split_chars(ls[i as int], '\n'), width as int);
        }
        i = i + 1;
    }
    assert(ls.take(ls.len() as int) =~= ls);
    rows
}

/// Wrapping two runs of pieces wraps each.
pub proof fn lemma_wrap_all_concat(a: Seq<Seq<char>>, b: Seq<Seq<char>>, width: int)
    ensures
        wrap_all(a + b, width) == wrap_all(a, width) + wrap_all(b, width),
    decreases b.len(),
{
    if b.len() == 0 {
        assert(a + b =~= a);
        assert(wrap_all(a, width) + wrap_all(b, width) =~= wrap_all(a, width));
    } else {
        lemma_wrap_all_concat(a, b.drop_last(), width);
        assert((a + b).drop_last() =~= a + b.drop_last());
        assert((a + b).last() == b.last());
        assert(wrap_all(a, width) + wrap_all(b, width) =~= wrap_all(a, width) + wrap_all(b.drop_last(), width)
            + wrapped(b.last(), width));
    }
}

/// Whether a panel fits on a screen of this size.
pub open spec fn can_draw_spec(screen_width: u16, screen_height: u16) -> bool {
    screen_height >= 6 && screen_width >= 12
}

/// Whether a panel fits on a screen of this size.
pub fn can_draw(screen_width: u16, screen_height: u16) -> (res: bool)
    ensures
        res == can_draw_spec(screen_width, screen_height),
{
    screen_height >= 6 && screen_width >= 12
}

/// The strings as string slices.
pub fn as_strs(lines: &[String]) -> (res: Vec<&str>)
    ensures
        strs_view(res@) == strings_view(lines@),
{
    let mut borrowed: Vec<&str> = Vec::new();
    let mut i: usize = 0;
    while i < lines.len()
        invariant
            i <= lines@.len(),
            strs_view(borrowed@) == strings_view(lines@).take(i as int),
        decreases lines@.len() - i,
    {
        let ghost before = borrowed@;
        borrowed.push(lines[i].as_str());
        assert(strs_view(borrowed@) =~= strs_view(before).push(lines@[i as int]@));
        i = i + 1;
        assert(strings_view(lines@).take(i as int) =~= strings_view(lines@).take(i - 1).push(lines@[i - 1]@));
    }
    assert(strings_view(lines@).take(lines@.len() as int) =~= strings_view(lines@));
    borrowed
}

} // verus!
