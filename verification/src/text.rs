//! Small text utilities shared by the overlays: character pushes and pops,
//! display widths, grapheme clusters of a string, splitting at a separator
//! and decimal numbers.

use unicode_width::UnicodeWidthStr;
use vstd::prelude::*;
use vstd::string::*;
use vstd::utf8::*;

use crate::model::buffer::{string_from_bytes, strings_view};
use crate::model::search::clusters;
use crate::model::unicode::{grapheme_offsets, lemma_sub_valid, tiling_starts};

verus! {

broadcast use {vstd::seq::group_seq_axioms, vstd::seq_lib::group_seq_properties};

/// The displayed width in terminal columns of `text`, as `unicode-width`'s
/// `UnicodeWidthStr::width` reports it.
pub uninterp spec fn display_width(text: Seq<char>) -> usize;

/// `String::push`: appends one character.
#[verifier::external_body]
pub fn push_char(s: &mut String, c: char)
    ensures
        final(s)@ == old(s)@.push(c),
{
    s.push(c);
}

/// `String::pop`: removes and returns the last character, if any.
#[verifier::external_body]
pub fn pop_char(s: &mut String) -> (res: Option<char>)
    ensures
        old(s)@.len() == 0 ==> res is None && final(s)@ == old(s)@,
        old(s)@.len() > 0 ==> res == Some(old(s)@.last()) && final(s)@ == old(s)@.drop_last(),
{
    s.pop()
}

/// `UnicodeWidthStr::width` of `unicode-width`.
#[verifier::external_body]
pub fn str_width(text: &str) -> (res: usize)
    ensures
        res == display_width(text@),
{
    UnicodeWidthStr::width(text)
}

/// The decimal digit `d` as a character.
pub open spec fn digit_char(d: nat) -> char {
    seq!['0', '1', '2', '3', '4', '5', '6', '7', '8', '9'][d as int]
}

/// The decimal notation of `n`, without sign or leading zeros.
pub open spec fn decimal(n: nat) -> Seq<char>
    decreases n,
{
    if n < 10 {
        seq![digit_char(n)]
    } else {
        decimal(n / 10).push(digit_char(n % 10))
    }
}

fn digit_str(d: usize) -> (res: &'static str)
    requires
        d < 10,
    ensures
        res@ == seq![digit_char(d as nat)],
{
    let digits = "0123456789";
    proof {
        reveal_strlit("0123456789");
        assert(digits@ =~= seq!['0', '1', '2', '3', '4', '5', '6', '7', '8', '9']);
    }
    let res = digits.substring_char(d, d + 1);
    assert(res@ =~= seq![digit_char(d as nat)]);
    res
}

/// `n` written in decimal.
pub fn decimal_string(n: usize) -> (res: String)
    ensures
        res@ == decimal(n as nat),
    decreases n,
{
    if n < 10 {
        digit_str(n).to_owned()
    } else {
        let mut s = decimal_string(n / 10);
        s.append(digit_str(n % 10));
        s
    }
}

/// The pieces of `t` between occurrences of `sep`, as `str::split` yields
/// them (an empty text gives one empty piece).
pub open spec fn split_chars(t: Seq<char>, sep: char) -> Seq<Seq<char>>
    decreases t.len(),
{
    if t.len() == 0 {
        seq![Seq::<char>::empty()]
    } else {
        let prev = split_chars(t.drop_last(), sep);
        if t.last() == sep {
            prev.push(Seq::<char>::empty())
        } else {
            prev.drop_last().push(prev.last().push(t.last()))
        }
    }
}

proof fn lemma_split_len(t: Seq<char>, sep: char)
    ensures
        split_chars(t, sep).len() >= 1,
    decreases t.len(),
{
    if t.len() > 0 {
        lemma_split_len(t.drop_last(), sep);
    }
}

/// `text` split at every `sep`.
pub fn split_at_char(text: &str, sep: char) -> (res: Vec<String>)
    ensures
        strings_view(res@) == split_chars(text@, sep),
{
    let n = text.unicode_len();
    let ghost t = text@;
    let mut out: Vec<String> = Vec::new();
    let mut current = String::new();
    let mut i: usize = 0;
    assert(t.take(0) =~= Seq::<char>::empty());
    while i < n
        invariant
            n == t.len(),
            t == text@,
            i <= n,
            strings_view(out@).push(current@) == split_chars(t.take(i as int), sep),
        decreases n - i,
    {
        let c = text.get_char(i);
        let ghost prefix = t.take(i + 1);
        assert(prefix.drop_last() =~= t.take(i as int));
        assert(prefix.last() == c);
        proof {
            lemma_split_len(t.take(i as int), sep);
        }
        let ghost prev = split_chars(t.take(i as int), sep);
        let ghost before = out@;
        if c == sep {
            let piece = current;
            current = String::new();
            out.push(piece);
            assert(strings_view(out@) =~= strings_view(before).push(piece@));
            assert(strings_view(out@).push(current@) =~= prev.push(Seq::<char>::empty()));
        } else {
            push_char(&mut current, c);
            assert(strings_view(before).push(current@) =~= prev.drop_last().push(prev.last().push(c)));
        }
        i = i + 1;
    }
    assert(t.take(n as int) =~= t);
    let ghost before = out@;
    out.push(current);
    assert(strings_view(out@) =~= strings_view(before).push(current@));
    out
}

/// The grapheme clusters of `text`, as `unicode-segmentation` splits it.
pub open spec fn text_clusters(text: Seq<char>) -> Seq<Seq<char>> {
    clusters(encode_utf8(text)).map_values(|g: Seq<u8>| decode_utf8(g))
}

/// Encoding a concatenation concatenates the encodings.
pub proof fn lemma_encode_concat(a: Seq<char>, b: Seq<char>)
    ensures
        encode_utf8(a + b) == encode_utf8(a) + encode_utf8(b),
    decreases a.len(),
{
    if a.len() == 0 {
        assert(a + b =~= b);
    } else {
        lemma_encode_concat(a.drop_first(), b);
        assert((a + b).drop_first() =~= a.drop_first() + b);
        assert((a + b)[0] == a[0]);
    }
}

/// The grapheme clusters of `text`, each as its own string; together they
/// are the whole text.
pub fn grapheme_strings(text: &str) -> (res: Vec<String>)
    ensures
        strings_view(res@) == text_clusters(text@),
        strings_view(res@).flatten() == text@,
{
    proof {
        encode_utf8_decode_utf8(text@);
        encode_utf8_valid_utf8(text@);
    }
    let bytes = text.as_bytes();
    let starts = grapheme_offsets(text);
    let ghost b = bytes@;
    let ghost st = starts@;
    let ghost target = text_clusters(text@);
    let mut out: Vec<String> = Vec::new();
    let mut i: usize = 0;
    while i < starts.len()
        invariant
            b == bytes@,
            b == encode_utf8(text@),
            st == starts@,
            st == crate::model::buffer::line_starts(b),
            valid_utf8(b),
            tiling_starts(st, b),
            target == text_clusters(text@),
            target.len() == st.len(),
            i <= st.len(),
            strings_view(out@) == target.take(i as int),
            encode_utf8(strings_view(out@).flatten()) == b.subrange(
                0,
                if i < st.len() {
                    st[i as int] as int
                } else {
                    b.len() as int
                },
            ),
        decreases st.len() - i,
    {
        let begin = starts[i];
        let end = if i + 1 < starts.len() {
            starts[i + 1]
        } else {
            bytes.len()
        };
        proof {
            is_char_boundary_start_end_of_seq(b);
            lemma_sub_valid(b, begin as int, end as int);
        }
        let piece = vstd::slice::slice_to_vec(vstd::slice::slice_subrange(bytes, begin, end));
        let ghost pb = piece@;
        proof {
            decode_utf8_encode_utf8(pb);
        }
        let s = string_from_bytes(piece);
        proof {
            encode_utf8_decode_utf8(s@);
        }
        assert(s@ == decode_utf8(pb));
        assert(target[i as int] == decode_utf8(clusters(b)[i as int]));
        let ghost before = out@;
        out.push(s);
        assert(strings_view(out@) =~= strings_view(before).push(s@));
        proof {
            strings_view(before).lemma_flatten_push(s@);
            lemma_encode_concat(strings_view(before).flatten(), s@);
            assert(b.subrange(0, begin as int) + b.subrange(begin as int, end as int) =~= b.subrange(0, end as int));
        }
        i = i + 1;
        assert(target.take(i as int) =~= target.take(i - 1).push(target[i - 1]));
    }
    assert(target.take(st.len() as int) =~= target);
    proof {
        if st.len() == 0 {
            assert(strings_view(out@) =~= Seq::<Seq<char>>::empty());
            assert(b.len() == 0);
            assert(encode_utf8(text@).len() == 0);
            if text@.len() > 0 {
                assert(encode_utf8(text@) == encode_scalar(text@[0] as u32) + encode_utf8(text@.drop_first()));
                char_is_scalar(text@[0]);
            }
            assert(text@ =~= Seq::<char>::empty());
        } else {
            assert(b.subrange(0, b.len() as int) =~= b);
            encode_utf8_decode_utf8(strings_view(out@).flatten());
        }
    }
    out
}

/// `g + d`, saturating at 0 and `usize::MAX`.
pub open spec fn sat_add_signed(g: usize, d: int) -> usize {
    let x = g + d;
    if x < 0 {
        0
    } else if x > usize::MAX {
        usize::MAX
    } else {
        x as usize
    }
}

/// `usize::saturating_add_signed`: `g + d`, saturating at 0 and `usize::MAX`.
pub fn add_signed(g: usize, d: isize) -> (res: usize)
    ensures
        res == sat_add_signed(g, d as int),
{
    if d >= 0 {
        g.saturating_add(d as usize)
    } else {
        let magnitude: usize = ((0 - (d + 1)) as usize) + 1;
        g.saturating_sub(magnitude)
    }
}

/// Whether two strings hold the same characters.
pub fn str_equals(a: &str, b: &str) -> (res: bool)
    ensures
        res == (a@ == b@),
{
    let x = a.as_bytes();
    let y = b.as_bytes();
    proof {
        encode_utf8_decode_utf8(a@);
        encode_utf8_decode_utf8(b@);
    }
    assert(x@ == encode_utf8(a@) && y@ == encode_utf8(b@));
    if x.len() != y.len() {
        return false;
    }
    let mut i: usize = 0;
    while i < x.len()
        invariant
            x@ == encode_utf8(a@),
            y@ == encode_utf8(b@),
            x@.len() == y@.len(),
            i <= x@.len(),
            forall|k: int| 0 <= k < i ==> x@[k] == y@[k],
        decreases x@.len() - i,
    {
        if x[i] != y[i] {
            assert(x@ != y@);
            return false;
        }
        i = i + 1;
    }
    assert(x@ =~= y@);
    true
}

} // verus!
