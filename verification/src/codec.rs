//! Bytes as text: base64 and hexadecimal.

use base64::Engine;
use vstd::prelude::*;

use crate::digits::{digit, hex_char};

verus! {

/// The character of a six-bit number in the standard base64 alphabet.
pub open spec fn base64_char(v: int) -> char {
    if v < 26 {
        (65 + v) as char
    } else if v < 52 {
        (71 + v) as char
    } else if v < 62 {
        (v - 4) as char
    } else if v == 62 {
        '+'
    } else {
        '/'
    }
}

/// Bytes in standard base64 with padding: three bytes make four characters.
pub open spec fn base64_of(b: Seq<u8>) -> Seq<char>
    decreases b.len(),
{
    if b.len() == 0 {
        Seq::empty()
    } else if b.len() == 1 {
        seq![base64_char(b[0] as int / 4), base64_char(b[0] as int % 4 * 16), '=', '=']
    } else if b.len() == 2 {
        seq![
            base64_char(b[0] as int / 4),
            base64_char(b[0] as int % 4 * 16 + b[1] as int / 16),
            base64_char(b[1] as int % 16 * 4),
            '=',
        ]
    } else {
        seq![
            base64_char(b[0] as int / 4),
            base64_char(b[0] as int % 4 * 16 + b[1] as int / 16),
            base64_char(b[1] as int % 16 * 4 + b[2] as int / 64),
            base64_char(b[2] as int % 64),
        ] + base64_of(b.skip(3))
    }
}

/// Bytes that fit what SHA-256 counts, with a block of a key before them.
pub open spec fn hashable(b: Seq<u8>) -> bool {
    b.len() <= 0x1000_0000_0000_0000
}

/// Bytes that base64 can write into one text.
pub open spec fn encodable(b: Seq<u8>) -> bool {
    2 * b.len() <= isize::MAX
}

/// `Engine::encode` of the `base64` crate's `general_purpose::STANDARD` engine:
/// the standard alphabet, with padding.
#[verifier::external_body]
pub(crate) fn base64_encode(bytes: &[u8]) -> (r: String)
    requires
        encodable(bytes@),
    ensures
        r@ == base64_of(bytes@),
{
    base64::engine::general_purpose::STANDARD.encode(bytes)
}

/// Bytes in lower-case hexadecimal, two characters each.
pub open spec fn hex_of(b: Seq<u8>) -> Seq<char>
    decreases b.len(),
{
    if b.len() == 0 {
        Seq::empty()
    } else {
        hex_of(b.drop_last()).push(digit((b.last() / 16) as nat)).push(digit((b.last() % 16) as nat))
    }
}

/// Bytes in lower-case hexadecimal, two characters each.
pub fn hex_bytes(bytes: &[u8]) -> (r: String)
    ensures
        r@ == hex_of(bytes@),
{
    let mut out = String::new();
    let mut i: usize = 0;
    assert(bytes@.take(0) =~= Seq::empty());
    while i < bytes.len()
        invariant
            i <= bytes@.len(),
            out@ == hex_of(bytes@.take(i as int)),
        decreases bytes@.len() - i,
    {
        let b: u8 = bytes[i];
        out.push(hex_char(b / 16));
        out.push(hex_char(b % 16));
        i += 1;
        assert(bytes@.take(i as int).drop_last() =~= bytes@.take(i - 1));
        assert(bytes@.take(i as int).last() == b);
    }
    assert(bytes@.take(i as int) =~= bytes@);
    out
}

/// Hexadecimal takes two characters to a byte.
pub proof fn hex_doubles_the_length(b: Seq<u8>)
    ensures
        hex_of(b).len() == 2 * b.len(),
    decreases b.len(),
{
    if b.len() > 0 {
        hex_doubles_the_length(b.drop_last());
    }
}

/// Each byte is written as two digits, the higher one first.
pub proof fn each_byte_has_two_digits(b: Seq<u8>, i: int)
    requires
        0 <= i < b.len(),
    ensures
        hex_of(b).len() == 2 * b.len(),
        hex_of(b)[2 * i] == digit((b[i] / 16) as nat),
        hex_of(b)[2 * i + 1] == digit((b[i] % 16) as nat),
    decreases b.len(),
{
    hex_doubles_the_length(b);
    hex_doubles_the_length(b.drop_last());
    if i < b.len() - 1 {
        each_byte_has_two_digits(b.drop_last(), i);
    }
}

/// Four digits of six bits have the worth of the first three bytes and are what
/// is written of them.
pub open spec fn begins_with_digits(b: Seq<u8>, d0: int, d1: int, d2: int, d3: int) -> bool {
    &&& 0 <= d0 < 64 && 0 <= d1 < 64 && 0 <= d2 < 64 && 0 <= d3 < 64
    &&& d0 * 262144 + d1 * 4096 + d2 * 64 + d3 == b[0] * 65536 + b[1] * 256 + b[2]
    &&& base64_of(b) == seq![
        base64_char(d0),
        base64_char(d1),
        base64_char(d2),
        base64_char(d3),
    ] + base64_of(b.skip(3))
}

/// Three bytes are written as four digits of the same worth, and no two digits
/// look the same; what is left of one or two bytes is filled up.
pub proof fn three_bytes_make_four_digits(b: Seq<u8>)
    ensures
        b.len() >= 3 ==> exists|d0: int, d1: int, d2: int, d3: int|
            #[trigger] begins_with_digits(b, d0, d1, d2, d3),
        b.len() == 2 ==> base64_of(b).len() == 4 && base64_of(b)[3] == '=' && base64_of(b).take(3)
            == base64_of(b.push(0)).take(3),
        b.len() == 1 ==> base64_of(b).len() == 4 && base64_of(b)[3] == '=' && base64_of(b)[2] == '='
            && base64_of(b).take(2) == base64_of(b.push(0).push(0)).take(2),
        b.len() == 0 ==> base64_of(b).len() == 0,
        forall|d: int, e: int|
            #![trigger base64_char(d), base64_char(e)]
            0 <= d < e < 64 ==> base64_char(d) != base64_char(e),
        base64_char(0) == 'A' && base64_char(25) == 'Z' && base64_char(26) == 'a' && base64_char(51)
            == 'z' && base64_char(52) == '0' && base64_char(61) == '9' && base64_char(62) == '+'
            && base64_char(63) == '/',
{
    if b.len() >= 3 {
        let d0 = b[0] as int / 4;
        let d1 = b[0] as int % 4 * 16 + b[1] as int / 16;
        let d2 = b[1] as int % 16 * 4 + b[2] as int / 64;
        let d3 = b[2] as int % 64;
        assert(d0 * 262144 + d1 * 4096 + d2 * 64 + d3 == b[0] * 65536 + b[1] * 256 + b[2]);
        assert(begins_with_digits(b, d0, d1, d2, d3));
    } else if b.len() == 2 {
        let c = b.push(0);
        assert(c[0] == b[0] && c[1] == b[1] && c[2] == 0);
        assert(base64_of(b).take(3) =~= base64_of(c).take(3));
    } else if b.len() == 1 {
        let c = b.push(0).push(0);
        assert(c[0] == b[0] && c[1] == 0 && c[2] == 0);
        assert(base64_of(b).take(2) =~= base64_of(c).take(2));
    }
}

} // verus!
