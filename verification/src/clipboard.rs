//! Clipboard transport helpers: RFC 4648 base64 and the OSC 52 terminal
//! clipboard write that carries it.

use vstd::prelude::*;
use vstd::string::*;
use vstd::utf8::*;

use crate::model::buffer::string_bytes;

verus! {

broadcast use {vstd::seq::group_seq_axioms, vstd::seq_lib::group_seq_properties};

/// Maximum payload sent through OSC 52. Larger copies still update the internal
/// clipboard, but are not sent to the terminal.
pub const OSC52_MAX_BYTES: usize = 1048576;

/// The base64 alphabet of RFC 4648.
pub open spec fn alphabet() -> Seq<char> {
    seq![
        'A', 'B', 'C', 'D', 'E', 'F', 'G', 'H', 'I', 'J', 'K', 'L', 'M', 'N', 'O', 'P', 'Q', 'R',
        'S', 'T', 'U', 'V', 'W', 'X', 'Y', 'Z', 'a', 'b', 'c', 'd', 'e', 'f', 'g', 'h', 'i', 'j',
        'k', 'l', 'm', 'n', 'o', 'p', 'q', 'r', 's', 't', 'u', 'v', 'w', 'x', 'y', 'z', '0', '1',
        '2', '3', '4', '5', '6', '7', '8', '9', '+', '/',
    ]
}

/// The four output characters of one input group of one to three bytes
/// (missing bytes count as zero and their characters become `=`).
pub open spec fn quad(first: u8, second: u8, third: u8, len: int) -> Seq<char> {
    seq![
        alphabet()[(first >> 2u8) as int],
        alphabet()[(((first & 3u8) << 4u8) | (second >> 4u8)) as int],
        if len > 1 {
            alphabet()[(((second & 15u8) << 2u8) | (third >> 6u8)) as int]
        } else {
            '='
        },
        if len > 2 {
            alphabet()[(third & 63u8) as int]
        } else {
            '='
        },
    ]
}

/// Standard base64 with padding of `bytes`.
pub open spec fn base64(bytes: Seq<u8>) -> Seq<char>
    decreases bytes.len(),
{
    if bytes.len() == 0 {
        Seq::empty()
    } else if bytes.len() == 1 {
        quad(bytes[0], 0, 0, 1)
    } else if bytes.len() == 2 {
        quad(bytes[0], bytes[1], 0, 2)
    } else {
        quad(bytes[0], bytes[1], bytes[2], 3) + base64(bytes.skip(3))
    }
}

/// The OSC 52 sequence that writes `text` to the default clipboard.
pub open spec fn osc52_text(text: Seq<char>) -> Seq<char> {
    seq!['\x1b', ']', '5', '2', ';', 'c', ';'] + base64(encode_utf8(text)) + seq!['\x07']
}

fn alphabet_char(i: u8) -> (res: &'static str)
    requires
        i < 64,
    ensures
        res@ == seq![alphabet()[i as int]],
{
    let table = "ABCDEFGHIJKLMNOPQRSTUVWXYZabcdefghijklmnopqrstuvwxyz0123456789+/";
    proof {
        reveal_strlit("ABCDEFGHIJKLMNOPQRSTUVWXYZabcdefghijklmnopqrstuvwxyz0123456789+/");
        assert(table@ =~= alphabet());
    }
    let res = table.substring_char(i as usize, i as usize + 1);
    assert(res@ =~= seq![alphabet()[i as int]]);
    res
}

fn pad() -> (res: &'static str)
    ensures
        res@ == seq!['='],
{
    let s = "=";
    proof {
        reveal_strlit("=");
        assert(s@ =~= seq!['=']);
    }
    s
}

/// Encodes bytes using standard RFC 4648 base64 with padding.
pub fn base64_encode(bytes: &[u8]) -> (res: String)
    ensures
        res@ == base64(bytes@),
{
    let mut encoded = String::new();
    let n = bytes.len();
    let mut i: usize = 0;
    let ghost b = bytes@;
    assert(b.skip(0) =~= b);
    while i < n
        invariant
            n == b.len(),
            b == bytes@,
            i <= n,
            encoded@ + base64(b.skip(i as int)) == base64(b),
        decreases n - i,
    {
        let len = if n - i >= 3 {
            3
        } else {
            n - i
        };
        let first = bytes[i];
        let second = if len > 1 {
            bytes[i + 1]
        } else {
            0
        };
        let third = if len > 2 {
            bytes[i + 2]
        } else {
            0
        };
        let ghost rest = b.skip(i as int);
        assert(rest[0] == first);
        assert(len > 1 ==> rest[1] == second);
        assert(len > 2 ==> rest[2] == third);
        let ghost before = encoded@;
        let c0: u8 = first >> 2u8;
        let c1: u8 = ((first & 3u8) << 4u8) | (second >> 4u8);
        assert(c0 < 64) by (bit_vector)
            requires
                c0 == first >> 2u8,
        ;
        assert(c1 < 64) by (bit_vector)
            requires
                c1 == ((first & 3u8) << 4u8) | (second >> 4u8),
        ;
        encoded.append(alphabet_char(c0));
        encoded.append(alphabet_char(c1));
        if len > 1 {
            let c2: u8 = ((second & 15u8) << 2u8) | (third >> 6u8);
            assert(c2 < 64) by (bit_vector)
                requires
                    c2 == ((second & 15u8) << 2u8) | (third >> 6u8),
            ;
            encoded.append(alphabet_char(c2));
        } else {
            encoded.append(pad());
        }
        if len > 2 {
            let c3: u8 = third & 63u8;
            assert(c3 < 64) by (bit_vector)
                requires
                    c3 == third & 63u8,
            ;
            encoded.append(alphabet_char(c3));
        } else {
            encoded.append(pad());
        }
        assert(encoded@ =~= before + quad(first, second, third, len as int));
        if len == 3 {
            assert(rest.skip(3) =~= b.skip(i + 3));
            assert(base64(rest) == quad(first, second, third, 3) + base64(rest.skip(3)));
        } else {
            assert(b.skip(i + len) =~= Seq::<u8>::empty());
            assert(base64(rest) == quad(first, second, third, len as int));
        }
        i = i + len;
    }
    assert(b.skip(n as int) =~= Seq::<u8>::empty());
    assert(encoded@ + Seq::<char>::empty() =~= encoded@);
    encoded
}

/// Formats an OSC 52 clipboard write for the default clipboard selection, or
/// nothing when the text is longer than [`OSC52_MAX_BYTES`].
pub fn osc52_copy_sequence(text: &str) -> (res: Option<Vec<u8>>)
    ensures
        encode_utf8(text@).len() > OSC52_MAX_BYTES ==> res is None,
        encode_utf8(text@).len() <= OSC52_MAX_BYTES ==> res is Some && res.unwrap()@ == encode_utf8(
            osc52_text(text@),
        ),
{
    let bytes = text.as_bytes();
    if bytes.len() > OSC52_MAX_BYTES {
        return None;
    }
    let start = "\x1b]52;c;";
    let end = "\x07";
    proof {
        reveal_strlit("\x1b]52;c;");
        reveal_strlit("\x07");
        assert(start@ =~= seq!['\x1b', ']', '5', '2', ';', 'c', ';']);
        assert(end@ =~= seq!['\x07']);
    }
    let mut sequence = start.to_owned();
    let payload = base64_encode(bytes);
    sequence.append(payload.as_str());
    sequence.append(end);
    assert(sequence@ =~= osc52_text(text@));
    Some(string_bytes(&sequence))
}

/// Base64 writes four characters for every started group of three bytes.
pub proof fn law_base64_length(bytes: Seq<u8>)
    ensures
        base64(bytes).len() == 4 * ((bytes.len() + 2) / 3),
    decreases bytes.len(),
{
    if bytes.len() > 2 {
        law_base64_length(bytes.skip(3));
    }
}

} // verus!
