//! Hexadecimal text for byte strings, through the `hex` crate.
use vstd::prelude::*;
use vstd::utf8::is_ascii_chars;

verus! {

/// The lowercase digit for a value below sixteen.
pub open spec fn hex_char(n: u8) -> char
    recommends
        n < 16,
{
    seq!['0', '1', '2', '3', '4', '5', '6', '7', '8', '9', 'a', 'b', 'c', 'd', 'e', 'f'][n as int]
}

/// Two lowercase digits per byte, high half first.
pub open spec fn hex_text(b: Seq<u8>) -> Seq<char> {
    Seq::new(
        2 * b.len(),
        |i: int|
            if i % 2 == 0 {
                hex_char(b[i / 2] / 16)
            } else {
                hex_char(b[i / 2] % 16)
            },
    )
}

/// A byte that is a hexadecimal digit in either case.
pub open spec fn is_hex_byte(c: u8) -> bool {
    (48 <= c <= 57) || (65 <= c <= 70) || (97 <= c <= 102)
}

/// The value of a hexadecimal digit byte.
pub open spec fn nibble(c: u8) -> u8 {
    if 48 <= c <= 57 {
        (c - 48) as u8
    } else if 65 <= c <= 70 {
        (c - 55) as u8
    } else {
        (c - 87) as u8
    }
}

/// Text that decodes: an even number of digit bytes.
pub open spec fn is_hex(s: Seq<u8>) -> bool {
    &&& s.len() % 2 == 0
    &&& forall|i: int| 0 <= i < s.len() ==> is_hex_byte(#[trigger] s[i])
}

/// The bytes that hexadecimal text stands for, two digits per byte.
pub open spec fn unhex(s: Seq<u8>) -> Seq<u8> {
    Seq::new(s.len() / 2, |i: int| (nibble(s[2 * i]) * 16 + nibble(s[2 * i + 1])) as u8)
}

/// The ASCII bytes of a sequence of characters.
pub open spec fn ascii_bytes(s: Seq<char>) -> Seq<u8> {
    Seq::new(s.len(), |i: int| s[i] as u8)
}

pub proof fn lemma_hex_char(n: u8)
    requires
        n < 16,
    ensures
        is_hex_byte(hex_char(n) as u8),
        nibble(hex_char(n) as u8) == n,
        hex_char(n) as u8 != 58,
        '\0' <= hex_char(n) <= '\u{7f}',
{
    let d = seq!['0', '1', '2', '3', '4', '5', '6', '7', '8', '9', 'a', 'b', 'c', 'd', 'e', 'f'];
    assert(d[n as int] == hex_char(n));
    assert(d[0] == '0' && d[1] == '1' && d[2] == '2' && d[3] == '3' && d[4] == '4' && d[5] == '5' && d[6] == '6' && d[7] == '7');
    assert(d[8] == '8' && d[9] == '9' && d[10] == 'a' && d[11] == 'b' && d[12] == 'c' && d[13] == 'd' && d[14] == 'e' && d[15] == 'f');
}


/// Hexadecimal text turns back into the bytes it was made from, and holds
/// no colon.
pub proof fn lemma_hex_round_trip(b: Seq<u8>)
    ensures
        is_ascii_chars(hex_text(b)),
        is_hex(ascii_bytes(hex_text(b))),
        unhex(ascii_bytes(hex_text(b))) == b,
        forall|i: int| 0 <= i < hex_text(b).len() ==> #[trigger] hex_text(b)[i] != ':',
{
    let t = hex_text(b);
    let a = ascii_bytes(t);
    assert forall|i: int| 0 <= i < t.len() implies {
        &&& '\0' <= #[trigger] t[i] <= '\u{7f}'
        &&& is_hex_byte(t[i] as u8)
        &&& t[i] != ':'
    } by {
        assert(0 <= i / 2 < b.len());
        lemma_hex_char(b[i / 2] / 16);
        lemma_hex_char(b[i / 2] % 16);
    }
    assert(is_hex(a)) by {
        assert(a.len() % 2 == 0);
        assert forall|i: int| 0 <= i < a.len() implies is_hex_byte(#[trigger] a[i]) by {
            assert(a[i] == t[i] as u8);
        }
    }
    let u = unhex(a);
    assert forall|i: int| 0 <= i < b.len() implies #[trigger] u[i] == b[i] by {
        let x = b[i];
        assert((2 * i) / 2 == i && (2 * i) % 2 == 0);
        assert((2 * i + 1) / 2 == i && (2 * i + 1) % 2 == 1);
        lemma_hex_char(x / 16);
        lemma_hex_char(x % 16);
        assert(a[2 * i] == hex_char(x / 16) as u8);
        assert(a[2 * i + 1] == hex_char(x % 16) as u8);
        assert((x / 16) * 16 + x % 16 == x);
    }
    assert(u =~= b);
}

/// Relies on hex::encode: two lowercase digits per byte, high half first.
#[verifier::external_body]
pub(crate) fn encode_hex(b: &[u8]) -> (r: String)
    ensures
        r@ == hex_text(b@),
{
    hex::encode(b)
}

/// Relies on hex::decode: it accepts an even number of digits of either case,
/// and nothing else, and reads each pair high half first.
#[verifier::external_body]
pub(crate) fn decode_hex(s: &[u8]) -> (r: Option<Vec<u8>>)
    ensures
        r is Some <==> is_hex(s@),
        r matches Some(v) ==> v@ == unhex(s@),
{
    hex::decode(s).ok()
}

} // verus!
