//! Pure buffer search helpers.
//!
//! Search works in grapheme-indexed positions so callers never split Unicode
//! clusters. Matching is literal and line-local: queries containing a line
//! break find nothing.

use vstd::prelude::*;
use vstd::slice::slice_subrange;
use vstd::utf8::*;

use super::buffer::{line_starts, string_bytes, BufferView, TextBuffer};
use super::position::{pos_le, pos_lt, precedes, precedes_or_equals, Position};
use super::unicode::{
    grapheme_offsets, lemma_sub_valid, lowercased, tiling_starts, to_lowercase, utf8_str,
};

verus! {

broadcast use {vstd::seq::group_seq_axioms, vstd::seq_lib::group_seq_properties};

/// The byte end of grapheme `i` given the starts of all graphemes.
pub open spec fn cluster_end(starts: Seq<usize>, bytes: Seq<u8>, i: int) -> int {
    if i + 1 < starts.len() {
        starts[i + 1] as int
    } else {
        bytes.len() as int
    }
}

/// The grapheme clusters of UTF-8 text, as byte sequences.
pub open spec fn clusters(bytes: Seq<u8>) -> Seq<Seq<u8>> {
    let starts = line_starts(bytes);
    Seq::new(starts.len(), |i: int| bytes.subrange(starts[i] as int, cluster_end(starts, bytes, i)))
}

/// Clusters compared by a search: as they are, or lowercased.
pub open spec fn normalized_clusters(bytes: Seq<u8>, case_sensitive: bool) -> Seq<Seq<u8>> {
    if case_sensitive {
        clusters(bytes)
    } else {
        clusters(bytes).map_values(|g: Seq<u8>| encode_utf8(lowercased(decode_utf8(g))))
    }
}

/// Start indices of the non-overlapping matches of `needle` in `hay` found by
/// scanning from `start` and skipping past each match.
pub open spec fn scan_matches(hay: Seq<Seq<u8>>, needle: Seq<Seq<u8>>, start: int) -> Seq<int>
    decreases hay.len() - start,
{
    if start < 0 || needle.len() == 0 || start + needle.len() > hay.len() {
        Seq::empty()
    } else if hay.subrange(start, start + needle.len()) == needle {
        seq![start] + scan_matches(hay, needle, start + needle.len())
    } else {
        scan_matches(hay, needle, start + 1)
    }
}

/// Ranges of the matches of `needle` on line `line`.
pub open spec fn line_matches(v: BufferView, line: int, needle: Seq<Seq<u8>>, case_sensitive: bool) -> Seq<(Position, Position)> {
    scan_matches(normalized_clusters(v.lines[line], case_sensitive), needle, 0).map_values(
        |s: int|
            (
                Position { line: line as usize, grapheme: s as usize },
                Position { line: line as usize, grapheme: (s + needle.len()) as usize },
            ),
    )
}

/// Matches on the first `n` lines, in buffer order.
pub open spec fn matches_upto(v: BufferView, needle: Seq<Seq<u8>>, case_sensitive: bool, n: int) -> Seq<(Position, Position)>
    decreases n,
{
    if n <= 0 {
        Seq::empty()
    } else {
        matches_upto(v, needle, case_sensitive, n - 1) + line_matches(
            v,
            n - 1,
            needle,
            case_sensitive,
        )
    }
}

/// All matches of a query (given as UTF-8 bytes).
pub open spec fn find_matches_spec(v: BufferView, query: Seq<u8>, case_sensitive: bool) -> Seq<(Position, Position)> {
    let needle = normalized_clusters(query, case_sensitive);
    if query.len() == 0 || query.contains(10u8) || query.contains(13u8) || needle.len() == 0 {
        Seq::empty()
    } else {
        matches_upto(v, needle, case_sensitive, v.lines.len() as int)
    }
}

/// Index of the first match starting at or after `cursor`, wrapping to 0.
pub open spec fn next_match_spec(matches: Seq<(Position, Position)>, cursor: Position, i: int) -> bool {
    &&& 0 <= i < matches.len()
    &&& forall|j: int| 0 <= j < i ==> !pos_le(cursor, #[trigger] matches[j].0)
    &&& (pos_le(cursor, matches[i].0) || (i == 0 && forall|j: int|
        0 <= j < matches.len() ==> !pos_le(cursor, #[trigger] matches[j].0)))
}

/// Index of the last match starting before `cursor`, wrapping to the end.
pub open spec fn previous_match_spec(matches: Seq<(Position, Position)>, cursor: Position, i: int) -> bool {
    &&& 0 <= i < matches.len()
    &&& forall|j: int| i < j < matches.len() ==> !pos_lt(#[trigger] matches[j].0, cursor)
    &&& (pos_lt(matches[i].0, cursor) || (i == matches.len() - 1 && forall|j: int|
        0 <= j < matches.len() ==> !pos_lt(#[trigger] matches[j].0, cursor)))
}

fn bytes_equal(a: &Vec<u8>, b: &Vec<u8>) -> (res: bool)
    ensures
        res == (a@ == b@),
{
    if a.len() != b.len() {
        return false;
    }
    let mut i: usize = 0;
    while i < a.len()
        invariant
            a@.len() == b@.len(),
            i <= a@.len(),
            forall|k: int| 0 <= k < i ==> a@[k] == b@[k],
        decreases a@.len() - i,
    {
        if a[i] != b[i] {
            return false;
        }
        i = i + 1;
    }
    assert(a@ =~= b@);
    true
}

/// Whether `hay[start..start + needle.len()]` equals `needle`.
fn window_equals(hay: &Vec<Vec<u8>>, needle: &Vec<Vec<u8>>, start: usize) -> (res: bool)
    requires
        start + needle@.len() <= hay@.len(),
    ensures
        res == (bytes_of(hay@).subrange(start as int, start + needle@.len()) == bytes_of(needle@)),
{
    let mut j: usize = 0;
    let hl = hay.len();
    let ghost h = bytes_of(hay@).subrange(start as int, start + needle@.len());
    while j < needle.len()
        invariant
            hl == hay@.len(),
            start + needle@.len() <= hay@.len(),
            h == bytes_of(hay@).subrange(start as int, start + needle@.len()),
            j <= needle@.len(),
            forall|k: int| 0 <= k < j ==> h[k] == bytes_of(needle@)[k],
        decreases needle@.len() - j,
    {
        if !bytes_equal(&hay[start + j], &needle[j]) {
            assert(h[j as int] != bytes_of(needle@)[j as int]);
            return false;
        }
        j = j + 1;
    }
    assert(h =~= bytes_of(needle@));
    true
}

/// The byte contents of a vector of byte vectors.
pub open spec fn bytes_of(v: Seq<Vec<u8>>) -> Seq<Seq<u8>> {
    v.map_values(|x: Vec<u8>| x@)
}

/// Grapheme clusters of `text`, lowercased unless the search is case sensitive.
fn normalized_graphemes(text: &str, case_sensitive: bool) -> (res: Vec<Vec<u8>>)
    ensures
        bytes_of(res@) == normalized_clusters(encode_utf8(text@), case_sensitive),
{
    proof {
        encode_utf8_decode_utf8(text@);
        encode_utf8_valid_utf8(text@);
    }
    let bytes = text.as_bytes();
    let starts = grapheme_offsets(text);
    let ghost b = bytes@;
    let ghost st = starts@;
    assert(line_starts(b) == st);
    let mut out: Vec<Vec<u8>> = Vec::new();
    let mut i: usize = 0;
    while i < starts.len()
        invariant
            b == bytes@,
            st == starts@,
            st == line_starts(b),
            valid_utf8(b),
            tiling_starts(st, b),
            i <= st.len(),
            bytes_of(out@) == normalized_clusters(b, case_sensitive).take(i as int),
        decreases st.len() - i,
    {
        let begin = starts[i];
        let end = if i + 1 < starts.len() {
            starts[i + 1]
        } else {
            bytes.len()
        };
        proof {
            vstd::utf8::is_char_boundary_start_end_of_seq(b);
            lemma_sub_valid(b, begin as int, end as int);
        }
        let piece = slice_subrange(bytes, begin, end);
        let cluster: Vec<u8> = if case_sensitive {
            vstd::slice::slice_to_vec(piece)
        } else {
            match utf8_str(piece) {
                Some(g) => {
                    proof {
                        encode_utf8_decode_utf8(g@);
                    }
                    let lower = to_lowercase(g);
                    string_bytes(&lower)
                },
                None => Vec::new(),
            }
        };
        let ghost before = out@;
        out.push(cluster);
        assert(bytes_of(out@) =~= bytes_of(before).push(cluster@));
        i = i + 1;
        assert(normalized_clusters(b, case_sensitive).take(i as int) =~= normalized_clusters(
            b,
            case_sensitive,
        ).take(i - 1).push(normalized_clusters(b, case_sensitive)[i - 1]));
    }
    assert(normalized_clusters(b, case_sensitive).take(st.len() as int) =~= normalized_clusters(
        b,
        case_sensitive,
    ));
    out
}

/// Finds all non-overlapping literal matches in `buffer`.
///
/// Returned ranges are half-open grapheme positions. Queries containing a line
/// break return no matches because search is line-local.
pub fn find_matches(buffer: &TextBuffer, query: &str, case_sensitive: bool) -> (res: Vec<(Position, Position)>)
    requires
        buffer@.wf(),
    ensures
        res@ == find_matches_spec(buffer@, encode_utf8(query@), case_sensitive),
{
    let qbytes = query.as_bytes();
    let ghost q = qbytes@;
    let mut has_break = false;
    let mut k: usize = 0;
    while k < qbytes.len()
        invariant
            q == qbytes@,
            k <= q.len(),
            has_break == (q.take(k as int).contains(10u8) || q.take(k as int).contains(13u8)),
        decreases q.len() - k,
    {
        assert(q.take(k + 1) =~= q.take(k as int).push(q[k as int]));
        if qbytes[k] == 10u8 || qbytes[k] == 13u8 {
            has_break = true;
        }
        k = k + 1;
        assert(q.take(k as int).contains(q[k - 1]));
    }
    assert(q.take(q.len() as int) =~= q);
    if qbytes.len() == 0 || has_break {
        return Vec::new();
    }
    let query_graphemes = normalized_graphemes(query, case_sensitive);
    if query_graphemes.len() == 0 {
        return Vec::new();
    }
    let ghost needle = bytes_of(query_graphemes@);
    let query_len = query_graphemes.len();
    let mut matches: Vec<(Position, Position)> = Vec::new();
    let mut line_index: usize = 0;
    let line_count = buffer.line_count();
    while line_index < line_count
        invariant
            buffer@.wf(),
            line_count == buffer@.lines.len(),
            needle == bytes_of(query_graphemes@),
            needle.len() == query_len,
            query_len > 0,
            line_index <= line_count,
            matches@ == matches_upto(buffer@, needle, case_sensitive, line_index as int),
        decreases line_count - line_index,
    {
        let line = match buffer.line(line_index) {
            Some(line) => line,
            None => "",
        };
        let line_graphemes = normalized_graphemes(line, case_sensitive);
        let ghost hay = bytes_of(line_graphemes@);
        let ghost found_before = matches@;
        // Skip past each match so results never overlap: overlapping ranges
        // would corrupt replace-all, which applies them back to front.
        let mut start: usize = 0;
        let ghost all = scan_matches(hay, needle, 0);
        while start <= line_graphemes.len() && query_len <= line_graphemes.len() - start
            invariant
                hay == bytes_of(line_graphemes@),
                needle == bytes_of(query_graphemes@),
                needle.len() == query_len,
                query_len > 0,
                all == scan_matches(hay, needle, 0),
                start <= hay.len() + 1,
                all.map_values(|s: int| (
                    Position { line: line_index, grapheme: s as usize },
                    Position { line: line_index, grapheme: (s + needle.len()) as usize },
                )) == (matches@.subrange(found_before.len() as int, matches@.len() as int)
                    + scan_matches(hay, needle, start as int).map_values(|s: int| (
                    Position { line: line_index, grapheme: s as usize },
                    Position { line: line_index, grapheme: (s + needle.len()) as usize },
                ))),
                matches@.subrange(0, found_before.len() as int) == found_before,
                found_before.len() <= matches@.len(),
            decreases hay.len() + 1 - start,
        {
            let ghost tail = scan_matches(hay, needle, start as int);
            let ghost before = matches@;
            if window_equals(&line_graphemes, &query_graphemes, start) {
                matches.push((Position::new(line_index, start), Position::new(line_index, start + query_len)));
                assert(tail == seq![start as int] + scan_matches(hay, needle, start + query_len));
                start = start + query_len;
            } else {
                start = start + 1;
            }
            assert(matches@.subrange(0, found_before.len() as int) =~= found_before);
            assert(matches@.subrange(found_before.len() as int, matches@.len() as int)
                =~= before.subrange(found_before.len() as int, before.len() as int) + (
                matches@.subrange(before.len() as int, matches@.len() as int)));
        }
        assert(scan_matches(hay, needle, start as int) =~= Seq::<int>::empty());
        assert(matches@ =~= found_before + line_matches(buffer@, line_index as int, needle, case_sensitive));
        line_index = line_index + 1;
    }
    matches
}

/// Selects the first match whose start is at or after `cursor`, wrapping to 0.
pub fn next_match_from(matches: &[(Position, Position)], cursor: Position) -> (res: Option<usize>)
    ensures
        matches@.len() == 0 ==> res is None,
        matches@.len() > 0 ==> (res matches Some(i) && next_match_spec(matches@, cursor, i as int)),
{
    if matches.len() == 0 {
        return None;
    }
    let mut i: usize = 0;
    while i < matches.len()
        invariant
            i <= matches@.len(),
            forall|j: int| 0 <= j < i ==> !pos_le(cursor, #[trigger] matches@[j].0),
        decreases matches@.len() - i,
    {
        if precedes_or_equals(cursor, matches[i].0) {
            return Some(i);
        }
        i = i + 1;
    }
    Some(0)
}

/// Selects the last match whose start is before `cursor`, wrapping to the end.
pub fn previous_match_from(matches: &[(Position, Position)], cursor: Position) -> (res: Option<usize>)
    ensures
        matches@.len() == 0 ==> res is None,
        matches@.len() > 0 ==> (res matches Some(i) && previous_match_spec(
            matches@,
            cursor,
            i as int,
        )),
{
    if matches.len() == 0 {
        return None;
    }
    let mut i: usize = matches.len();
    while i > 0
        invariant
            i <= matches@.len(),
            forall|j: int| i <= j < matches@.len() ==> !pos_lt(#[trigger] matches@[j].0, cursor),
        decreases i,
    {
        if precedes(matches[i - 1].0, cursor) {
            return Some(i - 1);
        }
        i = i - 1;
    }
    Some(matches.len() - 1)
}

} // verus!
