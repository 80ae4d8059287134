//! Whole numbers as text: decimal and hexadecimal, written and read.

use vstd::prelude::*;

use crate::text::{chars_of, lower, lowered};

verus! {

/// The character that stands for a digit below sixteen.
pub open spec fn digit(d: nat) -> char {
    if d < 10 {
        (48 + d) as char
    } else {
        (87 + d) as char
    }
}

/// A number written in some radix, without leading zeros.
pub open spec fn written(n: nat, radix: nat) -> Seq<char>
    decreases n,
{
    if n < radix || radix < 2 {
        seq![digit(n)]
    } else {
        proof {
            assert(n / radix < n) by (nonlinear_arith)
                requires
                    n >= radix,
                    radix >= 2,
            ;
        }
        written(n / radix, radix).push(digit(n % radix))
    }
}

/// A number in decimal.
pub open spec fn decimal(n: nat) -> Seq<char> {
    written(n, 10)
}

/// A number in hexadecimal.
pub open spec fn hex(n: nat) -> Seq<char> {
    written(n, 16)
}

/// A text filled up with zeros on the left to at least `width` characters.
pub open spec fn padded(s: Seq<char>, width: nat) -> Seq<char> {
    if s.len() >= width {
        s
    } else {
        Seq::new((width - s.len()) as nat, |i: int| '0') + s
    }
}

/// The character of a digit below sixteen.
pub fn hex_char(value: u8) -> (r: char)
    requires
        value < 16,
    ensures
        r == digit(value as nat),
{
    if value < 10 {
        (48 + value) as char
    } else {
        (87 + value) as char
    }
}

/// Appends a number in decimal.
pub fn push_decimal(out: &mut String, n: u64)
    ensures
        final(out)@ == old(out)@ + decimal(n as nat),
    decreases n,
{
    if n >= 10 {
        push_decimal(out, n / 10);
    }
    out.push(hex_char((n % 10) as u8));
}

/// A number in decimal.
pub fn to_decimal(n: u64) -> (r: String)
    ensures
        r@ == decimal(n as nat),
{
    let mut out = String::new();
    push_decimal(&mut out, n);
    out
}

fn push_hex(out: &mut String, n: u64)
    ensures
        final(out)@ == old(out)@ + hex(n as nat),
    decreases n,
{
    if n >= 16 {
        push_hex(out, n / 16);
    }
    out.push(hex_char((n % 16) as u8));
}

/// Appends zeros and then `tail`, so that at least `width` characters come.
fn push_padded(out: &mut String, tail: &str, width: usize)
    ensures
        final(out)@ == old(out)@ + padded(tail@, width as nat),
{
    let have: usize = chars_of(tail).len();
    let ghost base = out@;
    let mut i: usize = have;
    while i < width
        invariant
            have == tail@.len(),
            have <= i,
            i <= width || i == have,
            out@ == base + Seq::new((i - have) as nat, |k: int| '0'),
        decreases width - i,
    {
        out.push('0');
        i += 1;
        assert(out@ =~= base + Seq::new((i - have) as nat, |k: int| '0'));
    }
    out.push_str(tail);
    assert(out@ =~= base + padded(tail@, width as nat));
}

/// Appends a number in decimal, zero-filled to `width`.
pub fn push_decimal_padded(out: &mut String, n: u64, width: usize)
    ensures
        final(out)@ == old(out)@ + padded(decimal(n as nat), width as nat),
{
    push_padded(out, to_decimal(n).as_str(), width)
}

/// A number in lower-case hexadecimal, zero-filled to `width`.
pub fn to_hex_padded(n: u64, width: usize) -> (r: String)
    ensures
        r@ == padded(hex(n as nat), width as nat),
{
    let mut tail = String::new();
    push_hex(&mut tail, n);
    let mut out = String::new();
    push_padded(&mut out, tail.as_str(), width);
    out
}

/// What a character is worth as a digit in some radix up to sixteen.
pub open spec fn digit_value(c: char, radix: nat) -> Option<nat> {
    let d: int = if '0' <= c && c <= '9' {
        c as int - 48
    } else if 'a' <= c && c <= 'f' {
        c as int - 87
    } else if 'A' <= c && c <= 'F' {
        c as int - 55
    } else {
        16
    };
    if d < radix {
        Some(d as nat)
    } else {
        None
    }
}

/// The number that some digits write, or `None` where one is no digit.
pub open spec fn digits_value(s: Seq<char>, radix: nat) -> Option<nat>
    decreases s.len(),
{
    if s.len() == 0 {
        Some(0)
    } else {
        match (digits_value(s.drop_last(), radix), digit_value(s.last(), radix)) {
            (Some(v), Some(d)) => Some(v * radix + d),
            _ => None,
        }
    }
}

/// A text without the plus sign that may stand in front.
pub open spec fn unsigned_body(s: Seq<char>) -> Seq<char> {
    if s.len() > 0 && s[0] == '+' {
        s.drop_first()
    } else {
        s
    }
}

/// What std's integer parsers read from a text for an unsigned type: digits,
/// at least one, after at most one plus sign, and no more than `max`.
pub open spec fn parsed(s: Seq<char>, radix: nat, max: nat) -> Option<nat> {
    let body = unsigned_body(s);
    match digits_value(body, radix) {
        Some(v) => if body.len() > 0 && v <= max {
            Some(v)
        } else {
            None
        },
        None => None,
    }
}

proof fn lemma_prefix_bounds(s: Seq<char>, radix: nat, k: int)
    requires
        0 <= k <= s.len(),
        radix >= 1,
    ensures
        digits_value(s, radix) is Some ==> digits_value(s.take(k), radix) is Some && digits_value(
            s.take(k),
            radix,
        )->0 <= digits_value(s, radix)->0,
    decreases s.len() - k,
{
    if k == s.len() {
        assert(s.take(k) =~= s);
    } else {
        lemma_prefix_bounds(s.drop_last(), radix, k);
        assert(s.drop_last().take(k) =~= s.take(k));
        if digits_value(s, radix) is Some {
            let v = digits_value(s.drop_last(), radix)->0;
            let d = digit_value(s.last(), radix)->0;
            assert(v * radix + d >= v) by (nonlinear_arith)
                requires
                    radix >= 1,
            ;
        }
    }
}

fn char_digit(c: char, radix: u64) -> (r: Option<u64>)
    requires
        radix <= 16,
    ensures
        match r {
            Some(d) => digit_value(c, radix as nat) == Some(d as nat),
            None => digit_value(c, radix as nat) is None,
        },
{
    let d: u64 = if '0' <= c && c <= '9' {
        c as u64 - 48
    } else if 'a' <= c && c <= 'f' {
        c as u64 - 87
    } else if 'A' <= c && c <= 'F' {
        c as u64 - 55
    } else {
        16
    };
    if d < radix {
        Some(d)
    } else {
        None
    }
}

/// Reads an unsigned number no larger than `max`.
pub fn parse_unsigned(s: &str, radix: u64, max: u64) -> (r: Option<u64>)
    requires
        2 <= radix <= 16,
    ensures
        match r {
            Some(v) => parsed(s@, radix as nat, max as nat) == Some(v as nat),
            None => parsed(s@, radix as nat, max as nat) is None,
        },
{
    let chars = chars_of(s);
    let n: usize = chars.len();
    let from: usize = if n > 0 && chars[0] == '+' {
        1
    } else {
        0
    };
    let ghost body = unsigned_body(s@);
    assert(body =~= chars@.skip(from as int));
    if from == n {
        return None;
    }
    let mut v: u64 = 0;
    let mut i: usize = from;
    assert(body.take(0) =~= Seq::empty());
    while i < n
        invariant
            2 <= radix <= 16,
            n == chars@.len(),
            from <= i <= n,
            from < n,
            body == chars@.skip(from as int),
            body == unsigned_body(s@),
            digits_value(body.take(i - from), radix as nat) == Some(v as nat),
            v <= max,
        decreases n - i,
    {
        let ghost k = i - from;
        assert(body.take(k + 1).drop_last() =~= body.take(k));
        assert(body.take(k + 1).last() == chars@[i as int]);
        proof {
            lemma_prefix_bounds(body, radix as nat, k + 1);
        }
        match char_digit(chars[i], radix) {
            None => {
                return None;
            },
            Some(d) => {
                assert(0 <= v * radix <= 0xffff_ffff_ffff_ffff * 16) by (nonlinear_arith)
                    requires
                        0 <= v <= 0xffff_ffff_ffff_ffff,
                        0 <= radix <= 16,
                ;
                let next: u128 = v as u128 * radix as u128 + d as u128;
                if next > max as u128 {
                    return None;
                }
                v = next as u64;
            },
        }
        i += 1;
    }
    assert(body.take(n - from) =~= body);
    Some(v)
}

proof fn lemma_digit_is_read_back(d: nat, radix: nat)
    requires
        d < radix <= 16,
    ensures
        digit_value(digit(d), radix) == Some(d),
        digit(d) != '+',
{
}

proof fn lemma_written_is_read_back(n: nat, radix: nat)
    requires
        2 <= radix <= 16,
    ensures
        digits_value(written(n, radix), radix) == Some(n),
        written(n, radix).len() > 0,
        written(n, radix)[0] != '+',
    decreases n,
{
    let s = written(n, radix);
    if n < radix {
        lemma_digit_is_read_back(n, radix);
        assert(s.drop_last() =~= Seq::empty());
        assert(digits_value(s.drop_last(), radix) == Some(0nat));
        assert(s.last() == digit(n));
        assert(0 * radix + n == n) by (nonlinear_arith);
        assert(digits_value(s, radix) == Some((0 * radix + n) as nat));
    } else {
        assert(n / radix < n) by (nonlinear_arith)
            requires
                n >= radix,
                radix >= 2,
        ;
        lemma_written_is_read_back(n / radix, radix);
        assert(n % radix < radix) by (nonlinear_arith)
            requires
                radix >= 2,
        ;
        lemma_digit_is_read_back(n % radix, radix);
        assert(s.drop_last() =~= written(n / radix, radix));
        assert(s.last() == digit(n % radix));
        assert((n / radix) * radix + n % radix == n) by (nonlinear_arith)
            requires
                radix >= 2,
        ;
    }
}

/// A number that was written is read back.
pub proof fn written_numbers_are_read_back(n: nat, radix: nat, max: nat)
    requires
        2 <= radix <= 16,
        n <= max,
    ensures
        parsed(written(n, radix), radix, max) == Some(n),
{
    lemma_written_is_read_back(n, radix);
}

/// Hexadecimal digits are written back in lower case, from the number that they
/// write and how many they are.
pub proof fn hex_digits_are_written_back(s: Seq<char>)
    requires
        s.len() > 0,
        digits_value(s, 16) is Some,
    ensures
        padded(hex(digits_value(s, 16)->0), s.len()) == lowered(s),
    decreases s.len(),
{
    let rest = s.drop_last();
    let v = digits_value(s, 16)->0;
    let d = digit_value(s.last(), 16)->0;
    assert(digit(d) == lower(s.last()));
    if rest.len() == 0 {
        assert(digits_value(rest, 16) == Some(0nat));
        assert(v == d);
        assert(padded(hex(v), s.len()) =~= lowered(s));
    } else {
        let before = digits_value(rest, 16)->0;
        hex_digits_are_written_back(rest);
        assert(v == before * 16 + d);
        let low = padded(hex(before), rest.len());
        assert(lowered(s) =~= low.push(digit(d)));
        if before == 0 {
            assert(hex(before) =~= seq!['0']);
            assert(hex(v) =~= seq![digit(d)]);
        } else {
            assert(v / 16 == before && v % 16 == d);
            assert(hex(v) =~= hex(before).push(digit(d)));
        }
        assert(padded(hex(v), s.len()) =~= low.push(digit(d)));
    }
}

/// A number is worth its digits: one more digit is worth itself beside the
/// number before, moved up by one place.
pub proof fn digits_have_their_worth(s: Seq<char>, c: char, radix: nat)
    requires
        2 <= radix <= 16,
    ensures
        ({
            let n = c as u32;
            let worth: int = if 48 <= n <= 57 {
                n - 48
            } else if 97 <= n <= 102 {
                n - 97 + 10
            } else if 65 <= n <= 70 {
                n - 65 + 10
            } else {
                16
            };
            let after = digits_value(s.push(c), radix);
            &&& after is Some <==> digits_value(s, radix) is Some && worth < radix
            &&& after is Some ==> after->0 == digits_value(s, radix)->0 * radix + worth
            &&& digits_value(Seq::empty(), radix) == Some(0nat)
        }),
{
    assert(s.push(c).drop_last() =~= s);
}

/// A number is read with or without a plus before it, and from digits only.
pub proof fn a_plus_may_stand_before(s: Seq<char>, radix: nat, max: nat)
    ensures
        parsed(Seq::empty(), radix, max) is None,
        s.len() > 0 && s[0] != '+' ==> parsed(seq!['+'] + s, radix, max) == parsed(s, radix, max),
        parsed(seq!['+'], radix, max) is None,
        parsed(s, radix, max) matches Some(n) ==> n <= max,
{
    let plus = seq!['+'] + s;
    assert(plus.drop_first() =~= s);
    assert(seq!['+'].drop_first() =~= Seq::<char>::empty());
}

/// Zeros fill a text up to its width, before it.
pub proof fn zeros_fill_the_width(s: Seq<char>, width: nat, i: int)
    ensures
        s.len() >= width ==> padded(s, width) == s,
        s.len() < width ==> padded(s, width).len() == width && padded(s, width).skip(
            width - s.len(),
        ) == s && (0 <= i < width - s.len() ==> padded(s, width)[i] == '0'),
{
    if s.len() < width {
        assert(padded(s, width).skip(width - s.len()) =~= s);
    }
}

} // verus!
