//! The key inspector's state: it observes keystrokes and pastes without
//! acting on them, keeping the last few records, newest first.

use vstd::prelude::*;
use vstd::string::*;

use crate::key::{Key, KeyEvent, Modifiers};
use crate::model::buffer::strings_view;
use crate::session::joined;
use crate::text::{decimal, decimal_string};

verus! {

broadcast use {vstd::seq::group_seq_axioms, vstd::seq_lib::group_seq_properties};

/// How many recent records stay visible at once.
pub const MAX_RECORDS: usize = 3;

/// One inspected event: the raw bytes that produced it and its display lines.
#[derive(Debug, Clone, PartialEq, Eq)]
pub struct InspectRecord {
    pub raw: Vec<u8>,
    pub lines: Vec<String>,
}

/// The abstract content of a record.
pub open spec fn record_view(r: InspectRecord) -> (Seq<u8>, Seq<Seq<char>>) {
    (r.raw@, strings_view(r.lines@))
}

/// The abstract content of the records.
pub open spec fn records_view(rs: Seq<InspectRecord>) -> Seq<(Seq<u8>, Seq<Seq<char>>)> {
    rs.map_values(|r: InspectRecord| record_view(r))
}

#[derive(Debug, Clone)]
pub struct InspectorOverlay {
    pub visible: bool,
    /// Most recent record first.
    pub records: Vec<InspectRecord>,
    /// Bytes read since the last record.
    pub pending_raw: Vec<u8>,
}

impl Default for InspectorOverlay {
    fn default() -> (res: Self)
        ensures
            !res.visible,
            res.records@.len() == 0,
            res.pending_raw@.len() == 0,
    {
        InspectorOverlay { visible: false, records: Vec::new(), pending_raw: Vec::new() }
    }
}

/// `records` with `r` in front, keeping the newest [`MAX_RECORDS`].
pub open spec fn pushed_records(
    records: Seq<(Seq<u8>, Seq<Seq<char>>)>,
    r: (Seq<u8>, Seq<Seq<char>>),
) -> Seq<(Seq<u8>, Seq<Seq<char>>)> {
    let all = seq![r] + records;
    if all.len() > MAX_RECORDS {
        all.take(MAX_RECORDS as int)
    } else {
        all
    }
}

/// The display line of a paste: only its size, never its content.
pub open spec fn paste_line(byte_len: nat) -> Seq<char> {
    "paste ("@ + decimal(byte_len) + " bytes)"@
}

impl InspectorOverlay {
    /// Shows the inspector with no records and no pending bytes.
    pub fn open(&mut self)
        ensures
            final(self).visible,
            final(self).records@.len() == 0,
            final(self).pending_raw@.len() == 0,
    {
        self.visible = true;
        self.records = Vec::new();
        self.pending_raw = Vec::new();
    }

    /// Hides the inspector and drops pending bytes; the records stay.
    pub fn close(&mut self)
        ensures
            !final(self).visible,
            final(self).records == old(self).records,
            final(self).pending_raw@.len() == 0,
    {
        self.visible = false;
        self.pending_raw = Vec::new();
    }

    /// Appends a chunk of raw input; the next record claims it.
    pub fn push_raw(&mut self, bytes: &[u8])
        ensures
            final(self).pending_raw@ == old(self).pending_raw@ + bytes@,
            final(self).records == old(self).records,
            final(self).visible == old(self).visible,
    {
        let mut i: usize = 0;
        let ghost start = self.pending_raw@;
        while i < bytes.len()
            invariant
                i <= bytes@.len(),
                self.pending_raw@ == start + bytes@.take(i as int),
                self.records == old(self).records,
                self.visible == old(self).visible,
            decreases bytes@.len() - i,
        {
            self.pending_raw.push(bytes[i]);
            i = i + 1;
            assert(bytes@.take(i as int) =~= bytes@.take(i - 1).push(bytes@[i - 1]));
        }
        assert(bytes@.take(bytes@.len() as int) =~= bytes@);
    }

    /// Records a paste as one summary line; its bytes are discarded, never
    /// stored.
    pub fn record_paste(&mut self, byte_len: usize)
        ensures
            records_view(final(self).records@) == pushed_records(
                records_view(old(self).records@),
                (Seq::<u8>::empty(), seq![paste_line(byte_len as nat)]),
            ),
            final(self).pending_raw@.len() == 0,
            final(self).visible == old(self).visible,
    {
        self.pending_raw = Vec::new();
        let lines = format_paste_record(byte_len);
        let record = InspectRecord { raw: Vec::new(), lines };
        assert(record_view(record) == (Seq::<u8>::empty(), seq![paste_line(byte_len as nat)]));
        self.push_record(record);
    }

    /// Puts `record` first and keeps the newest [`MAX_RECORDS`].
    pub fn push_record(&mut self, record: InspectRecord)
        ensures
            records_view(final(self).records@) == pushed_records(
                records_view(old(self).records@),
                record_view(record),
            ),
            final(self).pending_raw == old(self).pending_raw,
            final(self).visible == old(self).visible,
    {
        let ghost rv = record_view(record);
        let ghost old_records = records_view(self.records@);
        self.records.insert(0, record);
        assert(records_view(self.records@) =~= seq![rv] + old_records);
        if self.records.len() > MAX_RECORDS {
            self.records.truncate(MAX_RECORDS);
            assert(records_view(self.records@) =~= (seq![rv] + old_records).take(MAX_RECORDS as int));
        }
    }
}

/// Formats a paste record: only the byte count is shown.
pub fn format_paste_record(byte_len: usize) -> (res: Vec<String>)
    ensures
        strings_view(res@) == seq![paste_line(byte_len as nat)],
{
    let head = "paste (";
    let tail = " bytes)";
    proof {
        reveal_strlit("paste (");
        reveal_strlit(" bytes)");
    }
    let mut line = head.to_owned();
    line.append(decimal_string(byte_len).as_str());
    line.append(tail);
    let mut out: Vec<String> = Vec::new();
    out.push(line);
    assert(strings_view(out@) =~= seq![line@]);
    out
}

/// Whether `event` closes the inspector: a bare Esc.
pub fn is_close_key(event: &KeyEvent) -> (res: bool)
    ensures
        res == (event.key == Key::Esc && event.modifiers == Modifiers::none_spec()),
{
    event.key == Key::Esc && event.modifiers == Modifiers::none()
}

/// The lowercase hexadecimal digits.
pub open spec fn hex_digit(d: int) -> char {
    seq!['0', '1', '2', '3', '4', '5', '6', '7', '8', '9', 'a', 'b', 'c', 'd', 'e', 'f'][d]
}

/// A byte as `0x` and two lowercase hexadecimal digits.
pub open spec fn hex_byte(b: u8) -> Seq<char> {
    seq!['0', 'x', hex_digit(b as int / 16), hex_digit(b as int % 16)]
}

/// Every byte as `0xNN`, separated by spaces.
pub open spec fn hex_text(bytes: Seq<u8>) -> Seq<char> {
    joined(bytes.map_values(|b: u8| hex_byte(b)), seq![' '])
}

fn hex_digit_str(d: u8) -> (res: &'static str)
    requires
        d < 16,
    ensures
        res@ == seq![hex_digit(d as int)],
{
    let digits = "0123456789abcdef";
    proof {
        reveal_strlit("0123456789abcdef");
        assert(digits@ =~= seq!['0', '1', '2', '3', '4', '5', '6', '7', '8', '9', 'a', 'b', 'c', 'd', 'e', 'f']);
    }
    let res = digits.substring_char(d as usize, d as usize + 1);
    assert(res@ =~= seq![hex_digit(d as int)]);
    res
}

/// Raw bytes as `0x..` values separated by spaces.
pub fn hex_bytes(bytes: &[u8]) -> (res: String)
    ensures
        res@ == hex_text(bytes@),
{
    let prefix = "0x";
    let space = " ";
    proof {
        reveal_strlit("0x");
        reveal_strlit(" ");
        assert(prefix@ =~= seq!['0', 'x']);
        assert(space@ =~= seq![' ']);
    }
    let ghost hs = bytes@.map_values(|b: u8| hex_byte(b));
    let mut out = String::new();
    let mut i: usize = 0;
    assert(hs.take(0) =~= Seq::<Seq<char>>::empty());
    while i < bytes.len()
        invariant
            hs == bytes@.map_values(|b: u8| hex_byte(b)),
            prefix@ == seq!['0', 'x'],
            space@ == seq![' '],
            i <= bytes@.len(),
            out@ == joined(hs.take(i as int), seq![' ']),
        decreases bytes@.len() - i,
    {
        let b = bytes[i];
        if i > 0 {
            out.append(space);
        }
        out.append(prefix);
        out.append(hex_digit_str(b / 16));
        out.append(hex_digit_str(b % 16));
        assert(hs.take(i + 1).drop_last() =~= hs.take(i as int));
        assert(hs.take(i + 1).last() == hex_byte(b));
        proof {
            if i == 0 {
                assert(hs.take(1) =~= seq![hex_byte(b)]);
                assert(joined(hs.take(1), seq![' ']) == hex_byte(b));
            }
        }
        assert(out@ =~= joined(hs.take(i + 1), seq![' ']));
        i = i + 1;
    }
    assert(hs.take(bytes@.len() as int) =~= hs);
    out
}

} // verus!
