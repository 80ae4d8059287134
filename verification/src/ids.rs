//! Run ids.

use vstd::prelude::*;
use vstd::utf8::{
    decode_utf8, encode_utf8, encode_utf8_decode_utf8, is_ascii_chars_encode_utf8, is_char_boundary,
};

use crate::codec::{hex_bytes, hex_doubles_the_length, hex_of};
use crate::digits::{
    digits_value, hex, hex_digits_are_written_back, padded, parse_unsigned, parsed,
};
use crate::text::{chars_of, has_prefix, lowered, owned, starts_with};

verus! {

/// A hexadecimal digit, in upper or lower case.
pub open spec fn is_hex_digit(c: char) -> bool {
    ('0' <= c && c <= '9') || ('a' <= c && c <= 'f') || ('A' <= c && c <= 'F')
}

/// A run id: `run-` and 16 or 32 hexadecimal digits.
pub open spec fn valid_run_id(s: Seq<char>) -> bool {
    (s.len() == 20 || s.len() == 36) && has_prefix(s, "run-"@) && forall|i: int|
        4 <= i < s.len() ==> is_hex_digit(#[trigger] s[i])
}

/// Whether a text is a run id.
pub fn validate_run_id(run_id: &str) -> (r: bool)
    ensures
        r == valid_run_id(run_id@),
{
    let chars = chars_of(run_id);
    if !(chars.len() == 20 || chars.len() == 36) || !starts_with(run_id, "run-") {
        return false;
    }
    let mut i: usize = 4;
    while i < chars.len()
        invariant
            4 <= i <= chars@.len(),
            chars@ == run_id@,
            forall|k: int| 4 <= k < i ==> is_hex_digit(#[trigger] chars@[k]),
        decreases chars@.len() - i,
    {
        let c = chars[i];
        if !(('0' <= c && c <= '9') || ('a' <= c && c <= 'f') || ('A' <= c && c <= 'F')) {
            return false;
        }
        i += 1;
    }
    true
}

/// The number that a run id of 20 bytes carries: the 16 bytes behind the first
/// four, read as a hexadecimal number.
pub open spec fn run_sequence(s: Seq<char>) -> Option<nat> {
    let bytes = encode_utf8(s);
    if bytes.len() == 20 {
        parsed(decode_utf8(bytes.skip(4)), 16, u64::MAX as nat)
    } else {
        None
    }
}

/// The number that the short form of a run id carries.
pub fn parse_run_sequence(run_id: &str) -> (r: Option<u64>)
    requires
        encode_utf8(run_id@).len() == 20 ==> is_char_boundary(encode_utf8(run_id@), 4),
    ensures
        match r {
            Some(n) => run_sequence(run_id@) == Some(n as nat),
            None => run_sequence(run_id@) is None,
        },
{
    if run_id.as_bytes().len() != 20 {
        return None;
    }
    let (_, tail) = run_id.split_at(4);
    proof {
        encode_utf8_decode_utf8(tail@);
        assert(encode_utf8(tail@) =~= encode_utf8(run_id@).skip(4));
    }
    parse_unsigned(tail, 16, u64::MAX)
}

/// The run id that some bytes give.
pub fn run_id_from_bytes(bytes: &[u8]) -> (r: String)
    ensures
        r@ == "run-"@ + hex_of(bytes@),
{
    let mut id = owned("run-");
    id.push_str(hex_bytes(bytes).as_str());
    id
}

/// So many bytes from the operating system's random source, through
/// `getrandom::fill`. Nothing is promised of their values; `None` comes where
/// the source is not available.
#[verifier::external_body]
pub(crate) fn random_bytes(count: usize) -> (r: Option<Vec<u8>>)
    requires
        count <= 64,
    ensures
        r is Some ==> r->0@.len() == count,
{
    let mut bytes = vec![0u8; count];
    getrandom::fill(&mut bytes).ok().map(|_| bytes)
}

/// A run id that cannot be guessed: that of sixteen random bytes. `None` where
/// the operating system has no random source to give.
pub fn random_run_id() -> (r: Option<String>)
    ensures
        r is Some ==> exists|bytes: Seq<u8>|
            bytes.len() == 16 && r->0@ == "run-"@ + #[trigger] hex_of(bytes),
        r is Some ==> valid_run_id(r->0@) && r->0@.len() == 36,
{
    match random_bytes(16) {
        Some(bytes) => {
            proof {
                bytes_make_valid_run_ids(bytes@);
            }
            Some(run_id_from_bytes(bytes.as_slice()))
        },
        None => None,
    }
}

/// What is written in hexadecimal is made of hexadecimal digits.
pub proof fn lemma_hex_digits(b: Seq<u8>, i: int)
    requires
        0 <= i < hex_of(b).len(),
    ensures
        is_hex_digit(hex_of(b)[i]),
    decreases b.len(),
{
    if b.len() > 0 {
        if i < hex_of(b.drop_last()).len() {
            lemma_hex_digits(b.drop_last(), i);
        }
    }
}

/// Sixteen bytes, or eight, make a valid run id.
pub proof fn bytes_make_valid_run_ids(b: Seq<u8>)
    requires
        b.len() == 16 || b.len() == 8,
    ensures
        valid_run_id("run-"@ + hex_of(b)),
        ("run-"@ + hex_of(b)).len() == 4 + 2 * b.len(),
{
    reveal_strlit("run-");
    hex_doubles_the_length(b);
    let s = "run-"@ + hex_of(b);
    assert(s.subrange(0, 4) =~= "run-"@);
    assert forall|i: int| 4 <= i < s.len() implies is_hex_digit(#[trigger] s[i]) by {
        lemma_hex_digits(b, i - 4);
    }
}

proof fn lemma_hex_value(s: Seq<char>)
    requires
        forall|i: int| 0 <= i < s.len() ==> is_hex_digit(#[trigger] s[i]),
        s.len() <= 16,
    ensures
        crate::digits::digits_value(s, 16) is Some,
        crate::digits::digits_value(s, 16)->0 < crate::ieee::two_to(4 * s.len()),
    decreases s.len(),
{
    if s.len() > 0 {
        assert forall|i: int| 0 <= i < s.drop_last().len() implies is_hex_digit(
            #[trigger] s.drop_last()[i],
        ) by {
            assert(s.drop_last()[i] == s[i]);
        }
        lemma_hex_value(s.drop_last());
        assert(is_hex_digit(s[s.len() - 1]));
        let n = (4 * s.len()) as nat;
        assert(crate::ieee::two_to(n) == 16 * crate::ieee::two_to((n - 4) as nat)) by {
            reveal_with_fuel(crate::ieee::two_to, 5);
        }
        assert((n - 4) as nat == 4 * s.drop_last().len());
    }
}

proof fn lemma_valid_is_ascii(s: Seq<char>)
    requires
        valid_run_id(s),
    ensures
        encode_utf8(s).len() == s.len(),
        encode_utf8(s.skip(4)) == encode_utf8(s).skip(4),
{
    let t = s.skip(4);
    reveal_strlit("run-");
    assert forall|i: int| 0 <= i < s.len() implies '\0' <= #[trigger] s[i] <= '\u{7f}' by {
        if i < 4 {
            assert(s.subrange(0, 4)[i] == s[i]);
        } else {
            assert(is_hex_digit(s[i]));
        }
    }
    is_ascii_chars_encode_utf8(s);
    assert forall|i: int| 0 <= i < t.len() implies '\0' <= #[trigger] t[i] <= '\u{7f}' by {
        assert(t[i] == s[i + 4]);
    }
    is_ascii_chars_encode_utf8(t);
    assert(encode_utf8(t) =~= encode_utf8(s).skip(4));
}

proof fn lemma_short_run_id(s: Seq<char>)
    requires
        valid_run_id(s),
        s.len() == 20,
    ensures
        run_sequence(s) is Some,
        run_sequence(s) == digits_value(s.skip(4), 16),
{
    let t = s.skip(4);
    lemma_valid_is_ascii(s);
    encode_utf8_decode_utf8(t);
    assert forall|i: int| 0 <= i < t.len() implies is_hex_digit(#[trigger] t[i]) by {
        assert(t[i] == s[i + 4]);
    }
    lemma_hex_value(t);
    assert(crate::ieee::two_to(64) == 0x1_0000_0000_0000_0000) by {
        crate::ieee::lemma_two_to_values();
    }
    assert(is_hex_digit(t[0]));
}

/// Of the run ids those of the short form carry a number, and the number
/// written back gives the id in lower case.
pub proof fn short_run_ids_carry_a_number(s: Seq<char>)
    requires
        valid_run_id(s),
    ensures
        run_sequence(s) is Some <==> encode_utf8(s).len() == 20,
        run_sequence(s) is Some ==> "run-"@ + padded(hex(run_sequence(s)->0), 16) == lowered(s),
{
    lemma_valid_is_ascii(s);
    if s.len() == 20 {
        let t = s.skip(4);
        lemma_short_run_id(s);
        hex_digits_are_written_back(t);
        reveal_strlit("run-");
        assert(s =~= "run-"@ + t) by {
            assert(s.subrange(0, 4) == "run-"@);
            assert(s =~= s.subrange(0, 4) + t);
        }
        assert(lowered(s) =~= "run-"@ + lowered(t));
    }
}

/// A run's name is "run-" and sixteen or thirty-two hexadecimal digits, nothing
/// else.
pub proof fn run_ids_are_prefixed_digits(s: Seq<char>)
    ensures
        valid_run_id(s) <==> {
            &&& s.len() == 4 + 16 || s.len() == 4 + 32
            &&& s[0] == 'r' && s[1] == 'u' && s[2] == 'n' && s[3] == '-'
            &&& forall|i: int| #![trigger s[i]]
                4 <= i < s.len() ==> {
                    let c = s[i] as int;
                    48 <= c < 58 || 97 <= c < 103 || 65 <= c < 71
                }
        },
{
    reveal_strlit("run-");
    assert("run-"@.len() == 4);
    if s.len() >= 4 {
        let head = s.subrange(0, 4);
        assert(head[0] == s[0] && head[1] == s[1] && head[2] == s[2] && head[3] == s[3]);
        if s[0] == 'r' && s[1] == 'u' && s[2] == 'n' && s[3] == '-' {
            assert(head =~= "run-"@);
        }
        if head == "run-"@ {
            assert("run-"@[0] == 'r' && "run-"@[1] == 'u' && "run-"@[2] == 'n' && "run-"@[3]
                == '-');
        }
    }
}

} // verus!
