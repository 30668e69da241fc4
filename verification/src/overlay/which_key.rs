//! The which-key list: while a key sequence is pending, the ways it can
//! continue, each by its remaining keys and the action it runs, sorted, with
//! the action a timeout would run first and the undeliverable continuations
//! flagged.

use vstd::prelude::*;
use vstd::string::*;

use crate::key::KeyEvent;
use crate::model::buffer::strings_view;
use crate::overlay::palette_box::{box_frame, box_lines, clip_text, clipped, drawn, padded, repeated, DrawnText, TextStyle};
use crate::session::joined;
use crate::text::{decimal, decimal_string, push_char};
use crate::verify::{key_text, key_text_spec};

verus! {

broadcast use {vstd::seq::group_seq_axioms, vstd::seq_lib::group_seq_properties};

/// At most this many continuations are listed.
pub const MAX_CANDIDATE_ROWS: usize = 10;

/// `a` before `b` in lexicographic order of characters.
pub open spec fn text_lt(a: Seq<char>, b: Seq<char>) -> bool
    decreases a.len(),
{
    if a.len() == 0 {
        b.len() > 0
    } else if b.len() == 0 {
        false
    } else if a[0] != b[0] {
        (a[0] as int) < (b[0] as int)
    } else {
        text_lt(a.drop_first(), b.drop_first())
    }
}

/// A listed continuation: its keys as text, the action, and whether it
/// cannot arrive.
pub type EntryText = (Seq<char>, Seq<char>, bool);

/// `x` before `y`: by keys, then action, then the flag (unflagged first).
pub open spec fn entry_lt(x: EntryText, y: EntryText) -> bool {
    ||| text_lt(x.0, y.0)
    ||| (x.0 == y.0 && text_lt(x.1, y.1))
    ||| (x.0 == y.0 && x.1 == y.1 && !x.2 && y.2)
}

/// `x` inserted into `s` after every entry not after it.
pub open spec fn insert_sorted(s: Seq<EntryText>, x: EntryText) -> Seq<EntryText>
    decreases s.len(),
{
    if s.len() == 0 {
        seq![x]
    } else if entry_lt(x, s.last()) {
        insert_sorted(s.drop_last(), x).push(s.last())
    } else {
        s.push(x)
    }
}

/// `s` in order (a stable insertion order by [`entry_lt`]).
pub open spec fn sorted_entries(s: Seq<EntryText>) -> Seq<EntryText>
    decreases s.len(),
{
    if s.len() == 0 {
        Seq::empty()
    } else {
        insert_sorted(sorted_entries(s.drop_last()), s.last())
    }
}

/// Keys as display text, separated by spaces.
pub open spec fn keys_text(keys: Seq<KeyEvent>) -> Seq<char> {
    joined(keys.map_values(|k: KeyEvent| key_text_spec(k, false)), seq![' '])
}

/// The entry of a candidate `(keys, action)` after `pending` keys.
pub open spec fn candidate_entry(c: (Vec<KeyEvent>, String), pending: nat, undelivered: Seq<KeyEvent>) -> EntryText {
    let remaining = c.0@.skip(pending as int);
    (keys_text(remaining), c.1@, exists|i: int| 0 <= i < remaining.len() && undelivered.contains(#[trigger] remaining[i]))
}

/// The widest key text among `s`.
pub open spec fn key_width(s: Seq<EntryText>) -> nat
    decreases s.len(),
{
    if s.len() == 0 {
        0
    } else {
        let w = key_width(s.drop_last());
        if s.last().0.len() > w {
            s.last().0.len()
        } else {
            w
        }
    }
}

/// The row of an entry, its keys padded to `width`.
pub open spec fn entry_row(e: EntryText, width: nat) -> (Seq<char>, bool) {
    (
        padded(e.0, width) + "  "@ + e.1 + if e.2 {
            "  ✗ undelivered"@
        } else {
            Seq::empty()
        },
        e.2,
    )
}

/// The list shown for `candidates` after `pending` keys: the action a
/// timeout would run, then up to ten sorted continuations with their action
/// column aligned (flagged ones marked), then how many more there are.
pub open spec fn which_key_spec(
    pending: nat,
    candidates: Seq<(Vec<KeyEvent>, String)>,
    exact: Option<Seq<char>>,
    undelivered: Seq<KeyEvent>,
) -> Seq<(Seq<char>, bool)> {
    let entries = sorted_entries(candidates.map_values(|c: (Vec<KeyEvent>, String)| candidate_entry(c, pending, undelivered)));
    let shown: int = if entries.len() < MAX_CANDIDATE_ROWS {
        entries.len() as int
    } else {
        MAX_CANDIDATE_ROWS as int
    };
    let width = key_width(entries.take(shown));
    (match exact {
        Some(a) => seq![("(wait) "@ + a, false)],
        None => Seq::empty(),
    }) + Seq::new(shown as nat, |i: int| entry_row(entries[i], width)) + if entries.len() > shown {
        seq![("… "@ + decimal((entries.len() - shown) as nat) + " more"@, false)]
    } else {
        Seq::empty()
    }
}

/// The text of an optional string.
pub open spec fn opt_text(o: Option<String>) -> Option<Seq<char>> {
    match o {
        Some(a) => Some(a@),
        None => None,
    }
}

/// `a` before `b` (see [`text_lt`]).
fn text_less(a: &str, b: &str) -> (res: bool)
    ensures
        res == text_lt(a@, b@),
{
    let n = a.unicode_len();
    let m = b.unicode_len();
    let mut i: usize = 0;
    while i < n && i < m && a.get_char(i) == b.get_char(i)
        invariant
            n == a@.len(),
            m == b@.len(),
            i <= n,
            i <= m,
            text_lt(a@, b@) == text_lt(a@.skip(i as int), b@.skip(i as int)),
        decreases n - i,
    {
        assert(a@.skip(i as int).drop_first() =~= a@.skip(i + 1));
        assert(b@.skip(i as int).drop_first() =~= b@.skip(i + 1));
        i = i + 1;
    }
    if i == n {
        i < m
    } else if i == m {
        false
    } else {
        (a.get_char(i) as u32) < (b.get_char(i) as u32)
    }
}

/// `x` before `y` (see [`entry_lt`]).
fn entry_less(x: &(String, String, bool), y: &(String, String, bool)) -> (res: bool)
    ensures
        res == entry_lt((x.0@, x.1@, x.2), (y.0@, y.1@, y.2)),
{
    if text_less(x.0.as_str(), y.0.as_str()) {
        return true;
    }
    if text_less(y.0.as_str(), x.0.as_str()) {
        proof {
            lemma_text_lt_asym(x.0@, y.0@);
        }
        return false;
    }
    proof {
        lemma_text_lt_total(x.0@, y.0@);
    }
    if text_less(x.1.as_str(), y.1.as_str()) {
        return true;
    }
    if text_less(y.1.as_str(), x.1.as_str()) {
        proof {
            lemma_text_lt_asym(x.1@, y.1@);
        }
        return false;
    }
    proof {
        lemma_text_lt_total(x.1@, y.1@);
    }
    !x.2 && y.2
}

/// The order is asymmetric.
proof fn lemma_text_lt_asym(a: Seq<char>, b: Seq<char>)
    ensures
        text_lt(b, a) ==> !text_lt(a, b),
    decreases a.len(),
{
    if a.len() > 0 && b.len() > 0 && a[0] == b[0] {
        lemma_text_lt_asym(a.drop_first(), b.drop_first());
    }
}

/// Texts neither before the other are equal.
proof fn lemma_text_lt_total(a: Seq<char>, b: Seq<char>)
    ensures
        !text_lt(a, b) && !text_lt(b, a) ==> a == b,
    decreases a.len(),
{
    if a.len() > 0 && b.len() > 0 && a[0] == b[0] {
        lemma_text_lt_total(a.drop_first(), b.drop_first());
        if !text_lt(a, b) && !text_lt(b, a) {
            assert(a =~= seq![a[0]] + a.drop_first());
            assert(b =~= seq![b[0]] + b.drop_first());
        }
    }
}

/// The abstract form of entries.
pub open spec fn entries_text(v: Seq<(String, String, bool)>) -> Seq<EntryText> {
    v.map_values(|e: (String, String, bool)| (e.0@, e.1@, e.2))
}

/// Inserts `x` into the ordered `v` (see [`insert_sorted`]).
fn insert_entry(v: &mut Vec<(String, String, bool)>, x: (String, String, bool))
    ensures
        entries_text(final(v)@) == insert_sorted(entries_text(old(v)@), (x.0@, x.1@, x.2)),
{
    let ghost s = entries_text(v@);
    let ghost xv = (x.0@, x.1@, x.2);
    let mut j = v.len();
    assert(s.take(j as int) =~= s);
    assert(s.skip(j as int) =~= Seq::<EntryText>::empty());
    while j > 0 && entry_less(&x, &v[j - 1])
        invariant
            j <= v@.len(),
            s == entries_text(v@),
            xv == (x.0@, x.1@, x.2),
            insert_sorted(s, xv) == insert_sorted(s.take(j as int), xv) + s.skip(j as int),
        decreases j,
    {
        assert(s.take(j as int).drop_last() =~= s.take(j - 1));
        assert(s.take(j as int).last() == s[j - 1]);
        assert(seq![s[j - 1]] + s.skip(j as int) =~= s.skip(j - 1));
        assert(insert_sorted(s.take(j - 1), xv).push(s[j - 1]) + s.skip(j as int) =~= insert_sorted(s.take(j - 1), xv)
            + s.skip(j - 1));
        j = j - 1;
    }
    if j > 0 {
        assert(s.take(j as int).last() == s[j - 1]);
    }
    assert(insert_sorted(s.take(j as int), xv) == s.take(j as int).push(xv));
    v.insert(j, x);
    assert(entries_text(v@) =~= s.take(j as int).push(xv) + s.skip(j as int));
}

/// The which-key list (see [`which_key_spec`]).
pub fn which_key_lines(
    pending: &[KeyEvent],
    candidates: &[(Vec<KeyEvent>, String)],
    exact: Option<String>,
    undelivered_chords: &[KeyEvent],
) -> (res: Vec<(String, bool)>)
    requires
        forall|i: int| 0 <= i < candidates@.len() ==> pending@.len() <= (#[trigger] candidates@[i]).0@.len(),
    ensures
        res@.map_values(|r: (String, bool)| (r.0@, r.1)) == which_key_spec(
            pending@.len(),
            candidates@,
            opt_text(exact),
            undelivered_chords@,
        ),
{
    let ghost all = candidates@.map_values(|c: (Vec<KeyEvent>, String)| candidate_entry(c, pending@.len(), undelivered_chords@));
    let mut entries: Vec<(String, String, bool)> = Vec::new();
    let mut i: usize = 0;
    assert(all.take(0) =~= Seq::<EntryText>::empty());
    while i < candidates.len()
        invariant
            i <= candidates@.len(),
            all == candidates@.map_values(|c: (Vec<KeyEvent>, String)| candidate_entry(c, pending@.len(), undelivered_chords@)),
            forall|k: int| 0 <= k < candidates@.len() ==> pending@.len() <= (#[trigger] candidates@[k]).0@.len(),
            entries_text(entries@) == sorted_entries(all.take(i as int)),
        decreases candidates.len() - i,
    {
        let keys = &candidates[i].0;
        let ghost remaining = keys@.skip(pending@.len() as int);
        let mut text = String::new();
        let mut flagged = false;
        let mut k = pending.len();
        let ghost texts = remaining.map_values(|e: KeyEvent| key_text_spec(e, false));
        while k < keys.len()
            invariant
                pending@.len() <= k <= keys@.len(),
                remaining == keys@.skip(pending@.len() as int),
                texts == remaining.map_values(|e: KeyEvent| key_text_spec(e, false)),
                text@ == joined(texts.take(k - pending@.len()), seq![' ']),
                flagged == exists|j: int| 0 <= j < k - pending@.len() && undelivered_chords@.contains(#[trigger] remaining[j]),
            decreases keys.len() - k,
        {
            let key = keys[k];
            let ghost j = k - pending@.len();
            assert(remaining[j] == key);
            if k > pending.len() {
                push_char(&mut text, ' ');
            }
            text.append(key_text(key, false).as_str());
            assert(texts.take(j + 1).drop_last() =~= texts.take(j));
            let mut u: usize = 0;
            let mut hit = false;
            while u < undelivered_chords.len()
                invariant
                    u <= undelivered_chords@.len(),
                    hit == exists|t: int| 0 <= t < u && undelivered_chords@[t] == key,
                decreases undelivered_chords.len() - u,
            {
                if undelivered_chords[u] == key {
                    hit = true;
                }
                u = u + 1;
            }
            assert(hit == undelivered_chords@.contains(key));
            if hit {
                flagged = true;
            }
            k = k + 1;
        }
        assert(texts.take(keys@.len() - pending@.len()) =~= texts);
        let entry = (text, candidates[i].1.clone(), flagged);
        assert((entry.0@, entry.1@, entry.2) == all[i as int]);
        insert_entry(&mut entries, entry);
        assert(all.take(i + 1).drop_last() =~= all.take(i as int));
        i = i + 1;
    }
    assert(all.take(candidates@.len() as int) =~= all);
    let ghost sorted = entries_text(entries@);
    let n = entries.len();
    let shown = if n < MAX_CANDIDATE_ROWS {
        n
    } else {
        MAX_CANDIDATE_ROWS
    };
    let mut width: usize = 0;
    let mut w: usize = 0;
    assert(sorted.take(0) =~= Seq::<EntryText>::empty());
    while w < shown
        invariant
            w <= shown,
            shown <= n,
            n == entries@.len(),
            sorted == entries_text(entries@),
            width == key_width(sorted.take(w as int)),
        decreases shown - w,
    {
        let c = entries[w].0.as_str().unicode_len();
        assert(sorted.take(w + 1).drop_last() =~= sorted.take(w as int));
        if c > width {
            width = c;
        }
        w = w + 1;
    }
    let mut lines: Vec<(String, bool)> = Vec::new();
    let ghost exact_v = opt_text(exact);
    match &exact {
        Some(a) => {
            let mut line = "(wait) ".to_owned();
            line.append(a.as_str());
            lines.push((line, false));
        },
        None => {},
    }
    let ghost head = lines@.map_values(|r: (String, bool)| (r.0@, r.1));
    let mut r: usize = 0;
    while r < shown
        invariant
            r <= shown,
            shown <= n,
            n == entries@.len(),
            sorted == entries_text(entries@),
            width == key_width(sorted.take(shown as int)),
            lines@.map_values(|x: (String, bool)| (x.0@, x.1)) == head + Seq::new(r as nat, |t: int| entry_row(sorted[t], width as nat)),
        decreases shown - r,
    {
        let e = &entries[r];
        let mut line = e.0.clone();
        let len = line.as_str().unicode_len();
        if len < width {
            let mut p: usize = len;
            while p < width
                invariant
                    len <= p <= width,
                    line@ == e.0@ + repeated(' ', (p - len) as nat),
                decreases width - p,
            {
                push_char(&mut line, ' ');
                p = p + 1;
                assert(line@ =~= e.0@ + repeated(' ', (p - len) as nat));
            }
        }
        assert(line@ =~= padded(e.0@, width as nat));
        line.append("  ");
        line.append(e.1.as_str());
        if e.2 {
            line.append("  ✗ undelivered");
        }
        let ghost before = lines@;
        let row = (line, e.2);
        assert((row.0@, row.1) == entry_row(sorted[r as int], width as nat));
        let ghost rv = (row.0@, row.1);
        lines.push(row);
        assert(lines@.map_values(|x: (String, bool)| (x.0@, x.1)) =~= before.map_values(|x: (String, bool)| (x.0@, x.1)).push(rv));
        assert(lines@.map_values(|x: (String, bool)| (x.0@, x.1)) =~= head + Seq::new((r + 1) as nat, |t: int| entry_row(sorted[t], width as nat)));
        r = r + 1;
    }
    if n > shown {
        let mut more = "… ".to_owned();
        more.append(decimal_string(n - shown).as_str());
        more.append(" more");
        let ghost before = lines@.map_values(|x: (String, bool)| (x.0@, x.1));
        lines.push((more, false));
        assert(lines@.map_values(|x: (String, bool)| (x.0@, x.1)) =~= before.push(("… "@ + decimal((n - shown) as nat) + " more"@, false)));
    }
    assert(lines@.map_values(|x: (String, bool)| (x.0@, x.1)) =~= which_key_spec(pending@.len(), candidates@, exact_v, undelivered_chords@));
    lines
}

/// No entry of `s` comes before an earlier one.
pub open spec fn entries_ordered(s: Seq<EntryText>) -> bool {
    forall|i: int, j: int| 0 <= i < j < s.len() ==> !entry_lt(#[trigger] s[j], #[trigger] s[i])
}

/// The text order is transitive.
proof fn lemma_text_lt_trans(a: Seq<char>, b: Seq<char>, c: Seq<char>)
    requires
        text_lt(a, b),
        text_lt(b, c),
    ensures
        text_lt(a, c),
    decreases a.len(),
{
    if a.len() > 0 && b.len() > 0 && c.len() > 0 && a[0] == b[0] && b[0] == c[0] {
        lemma_text_lt_trans(a.drop_first(), b.drop_first(), c.drop_first());
    }
}

/// No text is before itself.
proof fn lemma_text_lt_irreflexive(a: Seq<char>)
    ensures
        !text_lt(a, a),
    decreases a.len(),
{
    if a.len() > 0 {
        lemma_text_lt_irreflexive(a.drop_first());
    }
}

/// The entry order is a strict total order.
proof fn lemma_entry_order(x: EntryText, y: EntryText, z: EntryText)
    ensures
        entry_lt(x, y) ==> !entry_lt(y, x),
        entry_lt(x, y) && entry_lt(y, z) ==> entry_lt(x, z),
        !entry_lt(x, y) && !entry_lt(y, x) ==> x == y,
{
    lemma_text_lt_asym(x.0, y.0);
    lemma_text_lt_asym(y.0, x.0);
    lemma_text_lt_asym(x.1, y.1);
    lemma_text_lt_asym(y.1, x.1);
    lemma_text_lt_irreflexive(x.0);
    lemma_text_lt_irreflexive(x.1);
    lemma_text_lt_irreflexive(y.0);
    lemma_text_lt_irreflexive(y.1);
    lemma_text_lt_total(x.0, y.0);
    lemma_text_lt_total(x.1, y.1);
    if text_lt(x.0, y.0) && text_lt(y.0, z.0) {
        lemma_text_lt_trans(x.0, y.0, z.0);
    }
    if text_lt(x.1, y.1) && text_lt(y.1, z.1) {
        lemma_text_lt_trans(x.1, y.1, z.1);
    }
}

/// Inserting into an ordered list keeps it ordered, adds exactly the entry,
/// and keeps every other entry.
proof fn lemma_insert_sorted(s: Seq<EntryText>, x: EntryText)
    requires
        entries_ordered(s),
    ensures
        entries_ordered(insert_sorted(s, x)),
        insert_sorted(s, x).to_multiset() == s.to_multiset().insert(x),
        forall|k: int| 0 <= k < insert_sorted(s, x).len() ==> #[trigger] insert_sorted(s, x)[k] == x || s.contains(insert_sorted(s, x)[k]),
    decreases s.len(),
{
    broadcast use vstd::seq_lib::group_to_multiset_ensures;

    if s.len() == 0 {
        assert(seq![x] =~= Seq::<EntryText>::empty().push(x));
    } else if entry_lt(x, s.last()) {
        let p = s.drop_last();
        let last = s.last();
        assert(entries_ordered(p)) by {
            assert forall|i: int, j: int| 0 <= i < j < p.len() implies !entry_lt(#[trigger] p[j], #[trigger] p[i]) by {
                assert(p[j] == s[j] && p[i] == s[i]);
            }
        }
        lemma_insert_sorted(p, x);
        let r = insert_sorted(p, x);
        assert forall|k: int| 0 <= k < r.len() implies !entry_lt(last, #[trigger] r[k]) by {
            if r[k] == x {
                lemma_entry_order(x, last, x);
            } else {
                assert(p.contains(r[k]));
                let m = choose|m: int| 0 <= m < p.len() && p[m] == r[k];
                assert(s[m] == p[m]);
                assert(!entry_lt(s[s.len() - 1], s[m]));
            }
        }
        let out = r.push(last);
        assert(entries_ordered(out)) by {
            assert forall|i: int, j: int| 0 <= i < j < out.len() implies !entry_lt(#[trigger] out[j], #[trigger] out[i]) by {
                if j == out.len() - 1 {
                    assert(out[j] == last);
                    assert(out[i] == r[i]);
                } else {
                    assert(out[j] == r[j] && out[i] == r[i]);
                }
            }
        }
        assert(s =~= p.push(last));
        assert forall|k: int| 0 <= k < out.len() implies #[trigger] out[k] == x || s.contains(out[k]) by {
            if k == out.len() - 1 {
                assert(s[s.len() - 1] == out[k]);
            } else {
                assert(out[k] == r[k]);
                if r[k] != x {
                    let m = choose|m: int| 0 <= m < p.len() && p[m] == r[k];
                    assert(s[m] == r[k]);
                }
            }
        }
    } else {
        let out = s.push(x);
        assert(!entry_lt(x, s[s.len() - 1]));
        assert(entries_ordered(out)) by {
            assert forall|i: int, j: int| 0 <= i < j < out.len() implies !entry_lt(#[trigger] out[j], #[trigger] out[i]) by {
                if j == out.len() - 1 {
                    assert(out[j] == x);
                    if i < s.len() - 1 {
                        assert(!entry_lt(s[s.len() - 1], s[i]));
                        if entry_lt(x, s[i]) {
                            lemma_entry_order(s[i], s[s.len() - 1], x);
                            lemma_entry_order(x, s[i], s[s.len() - 1]);
                            if !entry_lt(s[i], s[s.len() - 1]) {
                                lemma_entry_order(s[s.len() - 1], s[i], x);
                            }
                        }
                    }
                } else {
                    assert(out[j] == s[j] && out[i] == s[i]);
                }
            }
        }
        assert forall|k: int| 0 <= k < out.len() implies #[trigger] out[k] == x || s.contains(out[k]) by {
            if k < s.len() {
                assert(out[k] == s[k]);
            }
        }
    }
}

/// The which-key entries come out ordered by keys, then action, then the
/// undeliverable flag, and they are exactly the candidates' entries, each as
/// often as it occurs.
pub proof fn law_which_key_entries_sorted(s: Seq<EntryText>)
    ensures
        entries_ordered(sorted_entries(s)),
        sorted_entries(s).to_multiset() == s.to_multiset(),
    decreases s.len(),
{
    broadcast use vstd::seq_lib::group_to_multiset_ensures;

    if s.len() == 0 {
        assert(sorted_entries(s) =~= s);
    } else {
        law_which_key_entries_sorted(s.drop_last());
        lemma_insert_sorted(sorted_entries(s.drop_last()), s.last());
        assert(s =~= s.drop_last().push(s.last()));
    }
}

/// What the which-key panel draws on a `width` x `height` screen: nothing
/// without lines or on a screen under 12 x 6; else a box right above the
/// status bar titled with the typed prefix, holding as many lines as fit
/// (at most twelve), each cut to the box, dimmed when flagged.
pub open spec fn which_key_box_spec(label: Seq<char>, lines: Seq<(Seq<char>, bool)>, width: u16, height: u16) -> Seq<DrawnText> {
    if lines.len() == 0 || height < 6 || width < 12 {
        Seq::empty()
    } else {
        let box_width = (width - 4) as nat;
        let inner = (box_width - 4) as nat;
        let rows = height - 5;
        let max_rows = if rows < 1 {
            1
        } else if rows > MAX_CANDIDATE_ROWS + 2 {
            MAX_CANDIDATE_ROWS + 2
        } else {
            rows
        };
        let shown = if lines.len() < max_rows {
            lines.len() as int
        } else {
            max_rows as int
        };
        let box_height = (shown + 2) as u16;
        let top = (height - 1 - box_height) as u16;
        box_frame(top, box_height, box_width, seq![' '] + label + " … "@, Seq::empty()) + Seq::new(
            shown as nat,
            |r: int| (4u16, (top + 1 + r) as u16, clipped(lines[r].0, inner), if lines[r].1 { TextStyle::Dim } else { TextStyle::Normal }),
        )
    }
}

/// What the which-key panel draws (see [`which_key_box_spec`]).
pub fn which_key_box(pending_label: &str, lines: &[(String, bool)], width: u16, height: u16) -> (res: Vec<(u16, u16, String, TextStyle)>)
    ensures
        drawn(res@) == which_key_box_spec(pending_label@, lines@.map_values(|l: (String, bool)| (l.0@, l.1)), width, height),
{
    let ghost lv = lines@.map_values(|l: (String, bool)| (l.0@, l.1));
    if lines.len() == 0 || height < 6 || width < 12 {
        let out: Vec<(u16, u16, String, TextStyle)> = Vec::new();
        assert(drawn(out@) =~= Seq::<DrawnText>::empty());
        return out;
    }
    let box_width = (width - 4) as usize;
    let inner = box_width - 4;
    let rows = height - 5;
    let max_rows: usize = if rows < 1 {
        1
    } else if rows as usize > MAX_CANDIDATE_ROWS + 2 {
        MAX_CANDIDATE_ROWS + 2
    } else {
        rows as usize
    };
    let shown = if lines.len() < max_rows {
        lines.len()
    } else {
        max_rows
    };
    let box_height = (shown + 2) as u16;
    let top = height - 1 - box_height;
    let mut title = String::new();
    push_char(&mut title, ' ');
    title.append(pending_label);
    title.append(" … ");
    assert(title@ =~= seq![' '] + pending_label@ + " … "@);
    let footer = String::new();
    let mut out = box_lines(top, box_height, box_width, title.as_str(), footer.as_str());
    let ghost frame = drawn(out@);
    let mut r: usize = 0;
    while r < shown
        invariant
            r <= shown,
            shown <= lines@.len(),
            shown + 3 <= height,
            top as int == height - 1 - (shown + 2),
            lv == lines@.map_values(|l: (String, bool)| (l.0@, l.1)),
            drawn(out@) == frame + Seq::new(
                r as nat,
                |t: int| (4u16, (top + 1 + t) as u16, clipped(lv[t].0, inner as nat), if lv[t].1 { TextStyle::Dim } else { TextStyle::Normal }),
            ),
        decreases shown - r,
    {
        let ghost before = out@;
        let text = clip_text(lines[r].0.as_str(), inner);
        let style = if lines[r].1 {
            TextStyle::Dim
        } else {
            TextStyle::Normal
        };
        let ghost tv = text@;
        out.push((4u16, top + 1 + r as u16, text, style));
        assert(drawn(out@) =~= drawn(before).push((4u16, (top + 1 + r) as u16, tv, style)));
        r = r + 1;
        assert(drawn(out@) =~= frame + Seq::new(
            r as nat,
            |t: int| (4u16, (top + 1 + t) as u16, clipped(lv[t].0, inner as nat), if lv[t].1 { TextStyle::Dim } else { TextStyle::Normal }),
        ));
    }
    out
}

} // verus!