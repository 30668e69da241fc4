//! Text segmentation and UTF-8 facts the buffer relies on.
//!
//! Grapheme clusters, word boundaries, case mapping and trimming come from the
//! `unicode-segmentation` crate and the standard library; the functions here
//! are the only places that call them.  Everything else in the crate works on
//! UTF-8 byte sequences and the results named here.

use unicode_segmentation::UnicodeSegmentation;
use vstd::prelude::*;
use vstd::utf8::*;

verus! {

broadcast use vstd::seq::group_seq_axioms;

/// Byte offsets at which the extended grapheme clusters of `text` start,
/// in order, as `unicode-segmentation`'s `grapheme_indices(true)` reports them.
pub uninterp spec fn grapheme_starts(text: Seq<char>) -> Seq<usize>;

/// `(byte offset, byte length)` of each UAX#29 word of `text`, in order, as
/// `unicode-segmentation`'s `unicode_word_indices` reports them.
pub uninterp spec fn word_spans(text: Seq<char>) -> Seq<(usize, usize)>;

/// Whether `c` has the Unicode White_Space property, which
/// `char::is_whitespace` and `str::trim` go by.
pub open spec fn white_space(c: char) -> bool {
    let n = c as int;
    ||| 0x9 <= n <= 0xD
    ||| n == 0x20
    ||| n == 0x85
    ||| n == 0xA0
    ||| n == 0x1680
    ||| 0x2000 <= n <= 0x200A
    ||| n == 0x2028
    ||| n == 0x2029
    ||| n == 0x202F
    ||| n == 0x205F
    ||| n == 0x3000
}

/// `text` without its leading white space.
pub open spec fn trimmed_start(text: Seq<char>) -> Seq<char>
    decreases text.len(),
{
    if text.len() > 0 && white_space(text[0]) {
        trimmed_start(text.drop_first())
    } else {
        text
    }
}

/// `text` without its trailing white space.
pub open spec fn trimmed_end(text: Seq<char>) -> Seq<char>
    decreases text.len(),
{
    if text.len() > 0 && white_space(text.last()) {
        trimmed_end(text.drop_last())
    } else {
        text
    }
}

/// `text` with leading and trailing white space removed (`str::trim`).
pub open spec fn trimmed(text: Seq<char>) -> Seq<char> {
    trimmed_end(trimmed_start(text))
}

/// The lowercase mapping of `text` (`str::to_lowercase`).
pub uninterp spec fn lowercased(text: Seq<char>) -> Seq<char>;

/// Offsets of consecutive, non-empty, char-aligned pieces that tile `bytes`.
pub open spec fn tiling_starts(starts: Seq<usize>, bytes: Seq<u8>) -> bool {
    &&& (starts.len() == 0 <==> bytes.len() == 0)
    &&& (starts.len() > 0 ==> starts[0] == 0)
    &&& forall|i: int, j: int| 0 <= i < j < starts.len() ==> starts[i] < starts[j]
    &&& forall|i: int|
        0 <= i < starts.len() ==> starts[i] < bytes.len() && is_char_boundary(
            bytes,
            starts[i] as int,
        )
}

/// Ordered, disjoint, non-empty, char-aligned byte ranges inside `bytes`.
pub open spec fn ordered_spans(spans: Seq<(usize, usize)>, bytes: Seq<u8>) -> bool {
    &&& forall|i: int|
        0 <= i < spans.len() ==> {
            &&& spans[i].1 > 0
            &&& spans[i].0 + spans[i].1 <= bytes.len()
            &&& is_char_boundary(bytes, spans[i].0 as int)
            &&& is_char_boundary(bytes, spans[i].0 + spans[i].1)
        }
    &&& forall|i: int, j: int| 0 <= i < j < spans.len() ==> spans[i].0 + spans[i].1 <= spans[j].0
}

/// `std::str::from_utf8`: succeeds exactly on valid UTF-8, and the resulting
/// string's encoding is the input.
#[verifier::external_body]
pub(crate) fn utf8_str(bytes: &[u8]) -> (res: Option<&str>)
    ensures
        res is Some <==> valid_utf8(bytes@),
        res matches Some(s) ==> encode_utf8(s@) == bytes@,
{
    std::str::from_utf8(bytes).ok()
}

/// `String::from_utf8`: succeeds exactly on valid UTF-8, and the resulting
/// string's encoding is the input.
#[verifier::external_body]
pub(crate) fn utf8_string(bytes: Vec<u8>) -> (res: Option<String>)
    ensures
        res is Some <==> valid_utf8(bytes@),
        res matches Some(s) ==> s@ == decode_utf8(bytes@),
{
    String::from_utf8(bytes).ok()
}

/// `grapheme_indices(true)` of `unicode-segmentation`, keeping the offsets.
/// The clusters it yields are consecutive non-empty slices of `text` from its
/// start to its end, so their offsets tile the text's bytes.
#[verifier::external_body]
pub(crate) fn grapheme_offsets(text: &str) -> (res: Vec<usize>)
    ensures
        res@ == grapheme_starts(text@),
        tiling_starts(res@, encode_utf8(text@)),
{
    text.grapheme_indices(true).map(|(offset, _)| offset).collect()
}

/// `unicode_word_indices` of `unicode-segmentation`, as `(offset, length)`.
/// The words it yields are ordered, disjoint, non-empty slices of `text`.
#[verifier::external_body]
pub(crate) fn word_offsets(text: &str) -> (res: Vec<(usize, usize)>)
    ensures
        res@ == word_spans(text@),
        ordered_spans(res@, encode_utf8(text@)),
{
    text.unicode_word_indices().map(|(offset, word)| (offset, word.len())).collect()
}

/// `str::trim`: `text` without its leading and trailing White_Space
/// characters.
#[verifier::external_body]
pub(crate) fn trim(text: &str) -> (res: &str)
    ensures
        res@ == trimmed(text@),
{
    text.trim()
}

/// `str::to_lowercase`: its result is named by `lowercased`; nothing more
/// is stated.
#[verifier::external_body]
pub(crate) fn to_lowercase(text: &str) -> (res: String)
    ensures
        res@ == lowercased(text@),
{
    text.to_lowercase()
}

/// A byte below 0x80 splits valid UTF-8 into two valid halves around it.
pub proof fn lemma_ascii_split(bytes: Seq<u8>, i: int)
    requires
        valid_utf8(bytes),
        0 <= i < bytes.len(),
        bytes[i] < 0x80,
    ensures
        valid_utf8(bytes.subrange(0, i)),
        valid_utf8(bytes.subrange(i + 1, bytes.len() as int)),
        is_char_boundary(bytes, i),
        is_char_boundary(bytes, i + 1),
{
    is_char_boundary_iff_not_is_continuation_byte(bytes, i);
    valid_utf8_split(bytes, i);
    let suffix = bytes.subrange(i, bytes.len() as int);
    assert(valid_utf8(suffix));
    assert(pop_first_scalar(suffix) =~= bytes.subrange(i + 1, bytes.len() as int));
    if i + 1 < bytes.len() {
        lemma_boundary_after_ascii(bytes, i);
    } else {
        is_char_boundary_start_end_of_seq(bytes);
    }
}

proof fn lemma_boundary_after_ascii(bytes: Seq<u8>, i: int)
    requires
        valid_utf8(bytes),
        0 <= i,
        i + 1 < bytes.len(),
        bytes[i] < 0x80,
        valid_utf8(bytes.subrange(i + 1, bytes.len() as int)),
    ensures
        is_char_boundary(bytes, i + 1),
{
    let rest = bytes.subrange(i + 1, bytes.len() as int);
    assert(rest[0] == bytes[i + 1]);
    // the first byte of a valid non-empty sequence is a leading byte
    assert(valid_first_scalar(rest));
    assert(!is_continuation_byte(rest[0]));
    is_char_boundary_iff_not_is_continuation_byte(bytes, i + 1);
}

/// Removing bytes at both ends at char boundaries keeps valid UTF-8.
pub proof fn lemma_sub_valid(bytes: Seq<u8>, a: int, b: int)
    requires
        valid_utf8(bytes),
        0 <= a <= b <= bytes.len(),
        is_char_boundary(bytes, a),
        is_char_boundary(bytes, b),
    ensures
        valid_utf8(bytes.subrange(a, b)),
{
    valid_utf8_split(bytes, b);
    let pre = bytes.subrange(0, b);
    lemma_boundary_in_prefix(bytes, a, b);
    valid_utf8_split(pre, a);
    assert(pre.subrange(a, pre.len() as int) =~= bytes.subrange(a, b));
}

/// A boundary below a boundary `b` stays a boundary of the prefix ending at `b`.
pub proof fn lemma_boundary_in_prefix(bytes: Seq<u8>, a: int, b: int)
    requires
        valid_utf8(bytes),
        0 <= a <= b <= bytes.len(),
        is_char_boundary(bytes, a),
        is_char_boundary(bytes, b),
    ensures
        valid_utf8(bytes.subrange(0, b)),
        is_char_boundary(bytes.subrange(0, b), a),
    decreases bytes.len(),
{
    valid_utf8_split(bytes, b);
    let pre = bytes.subrange(0, b);
    if a == b {
        is_char_boundary_start_end_of_seq(pre);
    } else if a == 0 {
    } else {
        is_char_boundary_iff_not_is_continuation_byte(bytes, a);
        is_char_boundary_iff_not_is_continuation_byte(pre, a);
    }
}


/// The single-character text holding a line feed encodes as the LF byte.
pub proof fn lemma_encode_newline(text: Seq<char>)
    requires
        text == seq!['\n'],
    ensures
        encode_utf8(text) == seq![10u8],
{
    let c = text[0] as u32;
    assert(c == 10u32);
    assert(has_width_1_encoding(c));
    assert(leading_byte_width_1(c) == 10u8) by (bit_vector)
        requires
            c == 10u32,
    ;
    assert(text.drop_first() =~= Seq::<char>::empty());
    assert(encode_utf8(text.drop_first()) =~= Seq::<u8>::empty());
    assert(encode_scalar(c) =~= seq![10u8]);
}

/// The `\n` literal is the single line-feed character.
pub fn newline() -> (res: &'static str)
    ensures
        res@ == seq!['\n'],
        encode_utf8(res@) == seq![10u8],
{
    let s = "\n";
    proof {
        reveal_strlit("\n");
        assert(s@ =~= seq!['\n']);
        lemma_encode_newline(s@);
    }
    s
}

} // verus!
