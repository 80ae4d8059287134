//! Binary floating-point values carried by their bit patterns.
//!
//! Nothing here computes with fractions: values are compared, bounded, and
//! moved between the two widths, all of which is arithmetic on the patterns.

use vstd::prelude::*;

verus! {

/// A 32-bit value by its pattern.
#[derive(Clone, Copy, Debug, PartialEq, Eq, Structural)]
pub struct Single {
    pub bits: u32,
}

/// A 64-bit value by its pattern.
#[derive(Clone, Copy, Debug, PartialEq, Eq, Structural)]
pub struct Double {
    pub bits: u64,
}

/// Two to the power of `e`.
pub open spec fn two_to(e: nat) -> nat
    decreases e,
{
    if e == 0 {
        1
    } else {
        2 * two_to((e - 1) as nat)
    }
}

proof fn lemma_two_to_small(e: nat)
    requires
        e <= 63,
    ensures
        1 <= two_to(e) <= 0x8000_0000_0000_0000,
    decreases e,
{
    lemma_two_to_bound(e, 63);
    assert(two_to(63) == 0x8000_0000_0000_0000) by {
        lemma_two_to_values();
    }
}

proof fn lemma_two_to_bound(e: nat, f: nat)
    requires
        e <= f,
    ensures
        1 <= two_to(e) <= two_to(f),
    decreases f,
{
    if e < f {
        lemma_two_to_bound(e, (f - 1) as nat);
    } else if e > 0 {
        lemma_two_to_bound((e - 1) as nat, (f - 1) as nat);
    }
}

proof fn lemma_two_to_adds(e: nat, f: nat)
    ensures
        two_to(e + f) == two_to(e) * two_to(f),
    decreases e,
{
    if e > 0 {
        lemma_two_to_adds((e - 1) as nat, f);
        assert((e + f - 1) as nat == (e - 1) as nat + f);
        assert(2 * (two_to((e - 1) as nat) * two_to(f)) == (2 * two_to((e - 1) as nat)) * two_to(f))
            by (nonlinear_arith);
    } else {
        assert(1 * two_to(f) == two_to(f)) by (nonlinear_arith);
    }
}

/// Some powers of two.
pub(crate) proof fn lemma_two_to_values()
    ensures
        two_to(1) == 0x2,
        two_to(8) == 0x100,
        two_to(10) == 0x400,
        two_to(11) == 0x800,
        two_to(20) == 0x100000,
        two_to(23) == 0x800000,
        two_to(29) == 0x20000000,
        two_to(30) == 0x40000000,
        two_to(40) == 0x10000000000,
        two_to(50) == 0x4000000000000,
        two_to(52) == 0x10000000000000,
        two_to(53) == 0x20000000000000,
        two_to(54) == 0x40000000000000,
        two_to(55) == 0x80000000000000,
        two_to(59) == 0x800000000000000,
        two_to(60) == 0x1000000000000000,
        two_to(63) == 0x8000000000000000,
        two_to(64) == 0x10000000000000000,
{
    assert(two_to(1) == 2 && two_to(3) == 8 && two_to(5) == 32 && two_to(10) == 1024) by {
        reveal_with_fuel(two_to, 11);
    }
    assert(two_to(8) == 256 && two_to(9) == 512 && two_to(4) == 16 && two_to(2) == 4) by {
        reveal_with_fuel(two_to, 11);
    }
    lemma_two_to_adds(10, 1);
    lemma_two_to_adds(10, 10);
    lemma_two_to_adds(20, 3);
    lemma_two_to_adds(20, 9);
    lemma_two_to_adds(20, 10);
    lemma_two_to_adds(20, 20);
    assert(two_to(20) == 0x10_0000);
    assert(0x10_0000 * 0x10_0000 == 0x100_0000_0000) by (nonlinear_arith);
    assert(two_to(40) == 0x100_0000_0000);
    lemma_two_to_adds(40, 10);
    assert(two_to(50) == 0x4_0000_0000_0000);
    lemma_two_to_adds(50, 2);
    lemma_two_to_adds(50, 3);
    lemma_two_to_adds(50, 4);
    lemma_two_to_adds(50, 5);
    lemma_two_to_adds(50, 9);
    lemma_two_to_adds(50, 10);
    lemma_two_to_adds(60, 3);
    lemma_two_to_adds(60, 4);
}

proof fn lemma_two_to_52()
    ensures
        two_to(52) == unit64(),
{
    lemma_two_to_values();
}

fn power_of_two(e: u32) -> (r: u64)
    requires
        e <= 63,
    ensures
        r == two_to(e as nat),
{
    let mut r: u64 = 1;
    let mut i: u32 = 0;
    while i < e
        invariant
            i <= e <= 63,
            r == two_to(i as nat),
        decreases e - i,
    {
        proof {
            lemma_two_to_small((i + 1) as nat);
        }
        r = r * 2;
        i += 1;
    }
    r
}

/// `n / d` to the nearest whole number, and to the even one of two as near.
pub open spec fn nearest_even(n: nat, d: nat) -> nat {
    let q = n / d;
    let rest = n % d;
    if 2 * rest < d || (2 * rest == d && q % 2 == 0) {
        q
    } else {
        q + 1
    }
}

fn divide_nearest_even(n: u64, d: u64) -> (r: u64)
    requires
        2 <= d <= 0x4000_0000_0000_0000,
    ensures
        r == nearest_even(n as nat, d as nat),
        r <= n / d + 1,
{
    let q: u64 = n / d;
    let rest: u64 = n % d;
    assert(q <= n / 2) by (nonlinear_arith)
        requires
            q == n / d,
            d >= 2,
            n >= 0,
    ;
    if 2 * rest < d || (2 * rest == d && q % 2 == 0) {
        q
    } else {
        q + 1
    }
}

/// The place of the highest one in a number, counted from zero.
pub open spec fn top_bit(n: nat) -> nat
    decreases n,
{
    if n <= 1 {
        0
    } else {
        1 + top_bit(n / 2)
    }
}

proof fn lemma_top_bit(n: nat)
    requires
        n >= 1,
    ensures
        two_to(top_bit(n)) <= n < 2 * two_to(top_bit(n)),
    decreases n,
{
    if n > 1 {
        lemma_top_bit(n / 2);
    }
}

fn find_top_bit(n: u64) -> (r: u32)
    ensures
        r == top_bit(n as nat),
        r <= 63,
{
    let mut r: u32 = 0;
    let mut rest: u64 = n;
    proof {
        lemma_top_bit_max(n as nat, 64);
    }
    while rest > 1
        invariant
            r + top_bit(rest as nat) == top_bit(n as nat),
            top_bit(n as nat) <= 63,
        decreases rest,
    {
        rest = rest / 2;
        r += 1;
    }
    r
}

proof fn lemma_top_bit_max(n: nat, e: nat)
    requires
        n < two_to(e) || (e == 64 && n <= 0xffff_ffff_ffff_ffff),
        e >= 1,
    ensures
        top_bit(n) < e,
    decreases e,
{
    if e == 64 {
        assert(two_to(64) == 0x1_0000_0000_0000_0000) by {
            lemma_two_to_values();
        }
    }
    if n > 1 {
        if e == 1 {
            assert(two_to(1) == 2) by {
                lemma_two_to_values();
            }
        } else {
            lemma_top_bit_max(n / 2, (e - 1) as nat);
        }
    }
}

/// The weight of the sign in a 64-bit pattern.
pub open spec fn sign64() -> int {
    0x8000_0000_0000_0000
}

/// The pattern of 64-bit infinity.
pub open spec fn inf64() -> int {
    0x7ff0_0000_0000_0000
}

/// One unit of the exponent in a 64-bit pattern.
pub open spec fn unit64() -> int {
    0x10_0000_0000_0000
}

impl Double {
    /// The pattern without its sign.
    pub open spec fn magnitude(self) -> int {
        if self.bits < sign64() {
            self.bits as int
        } else {
            self.bits - sign64()
        }
    }

    /// The sign is set.
    pub open spec fn negative(self) -> bool {
        self.bits >= sign64()
    }

    /// Not a number.
    pub open spec fn nan(self) -> bool {
        self.magnitude() > inf64()
    }

    /// Neither infinite nor not a number.
    pub open spec fn finite(self) -> bool {
        self.magnitude() < inf64()
    }

    /// Where a number stands among numbers: the order of the values, with both
    /// zeros at 0.
    pub open spec fn rank(self) -> int {
        if self.negative() {
            -self.magnitude()
        } else {
            self.magnitude()
        }
    }

    /// `self <= other` as numbers compare.
    pub open spec fn le(self, other: Double) -> bool {
        !self.nan() && !other.nan() && self.rank() <= other.rank()
    }

    /// `self < other` as numbers compare.
    pub open spec fn lt(self, other: Double) -> bool {
        self.le(other) && self.rank() != other.rank()
    }

    /// `self` kept between two bounds; what is not a number stays as it is.
    pub open spec fn clamped(self, lo: Double, hi: Double) -> Double {
        if self.lt(lo) {
            lo
        } else if hi.lt(self) {
            hi
        } else {
            self
        }
    }

    fn sign_and_magnitude(self) -> (r: (bool, u64))
        ensures
            r.0 == self.negative(),
            r.1 == self.magnitude(),
            r.1 < 0x8000_0000_0000_0000,
    {
        if self.bits < 0x8000_0000_0000_0000 {
            (false, self.bits)
        } else {
            (true, self.bits - 0x8000_0000_0000_0000)
        }
    }

    /// Neither infinite nor not a number.
    pub fn is_finite(self) -> (r: bool)
        ensures
            r == self.finite(),
    {
        self.sign_and_magnitude().1 < 0x7ff0_0000_0000_0000
    }

    /// `self <= other` as numbers compare.
    pub fn at_most(self, other: Double) -> (r: bool)
        ensures
            r == self.le(other),
    {
        let (s, a) = self.sign_and_magnitude();
        let (t, b) = other.sign_and_magnitude();
        if a > 0x7ff0_0000_0000_0000 || b > 0x7ff0_0000_0000_0000 {
            false
        } else if s {
            if t {
                b <= a
            } else {
                true
            }
        } else if t {
            a == 0 && b == 0
        } else {
            a <= b
        }
    }

    /// `self < other` as numbers compare.
    pub fn below(self, other: Double) -> (r: bool)
        ensures
            r == self.lt(other),
    {
        self.at_most(other) && !other.at_most(self)
    }

    /// `self` kept between two bounds.
    pub fn clamp(self, lo: Double, hi: Double) -> (r: Double)
        ensures
            r == self.clamped(lo, hi),
    {
        if self.below(lo) {
            lo
        } else if hi.below(self) {
            hi
        } else {
            self
        }
    }

    /// `lo <= self <= hi` as numbers compare.
    pub fn within(self, lo: Double, hi: Double) -> (r: bool)
        ensures
            r == (lo.le(self) && self.le(hi)),
    {
        lo.at_most(self) && self.at_most(hi)
    }
}

/// The weight of the sign in a 32-bit pattern.
pub open spec fn sign32() -> int {
    0x8000_0000
}

/// The pattern of 32-bit infinity.
pub open spec fn inf32() -> int {
    0x7f80_0000
}

/// One unit of the exponent in a 32-bit pattern.
pub open spec fn unit32() -> int {
    0x80_0000
}

impl Single {
    /// The pattern without its sign.
    pub open spec fn magnitude(self) -> int {
        if self.bits < sign32() {
            self.bits as int
        } else {
            self.bits - sign32()
        }
    }

    /// The sign is set.
    pub open spec fn negative(self) -> bool {
        self.bits >= sign32()
    }

    /// Not a number.
    pub open spec fn nan(self) -> bool {
        self.magnitude() > inf32()
    }

    /// Neither infinite nor not a number.
    pub open spec fn finite(self) -> bool {
        self.magnitude() < inf32()
    }

    /// Where a number stands among numbers, with both zeros at 0.
    pub open spec fn rank(self) -> int {
        if self.negative() {
            -self.magnitude()
        } else {
            self.magnitude()
        }
    }

    /// Where a value stands in the total order of patterns: like `rank`, with
    /// the negative zero below the positive one and the rest outside infinity.
    pub open spec fn total_rank(self) -> int {
        if self.negative() {
            -self.magnitude() - 1
        } else {
            self.magnitude()
        }
    }

    /// `self <= other` as numbers compare.
    pub open spec fn le(self, other: Single) -> bool {
        !self.nan() && !other.nan() && self.rank() <= other.rank()
    }

    /// `self < other` as numbers compare.
    pub open spec fn lt(self, other: Single) -> bool {
        !self.nan() && !other.nan() && self.rank() < other.rank()
    }

    fn sign_and_magnitude(self) -> (r: (bool, u32))
        ensures
            r.0 == self.negative(),
            r.1 == self.magnitude(),
            r.1 < 0x8000_0000,
    {
        if self.bits < 0x8000_0000 {
            (false, self.bits)
        } else {
            (true, self.bits - 0x8000_0000)
        }
    }

    /// Neither infinite nor not a number.
    pub fn is_finite(self) -> (r: bool)
        ensures
            r == self.finite(),
    {
        self.sign_and_magnitude().1 < 0x7f80_0000
    }

    fn is_nan(self) -> (r: bool)
        ensures
            r == self.nan(),
    {
        self.sign_and_magnitude().1 > 0x7f80_0000
    }

    fn order(self) -> (r: i64)
        ensures
            r == self.rank(),
    {
        let (s, a) = self.sign_and_magnitude();
        if s {
            -(a as i64)
        } else {
            a as i64
        }
    }

    /// `self <= other` as numbers compare.
    pub fn at_most(self, other: Single) -> (r: bool)
        ensures
            r == self.le(other),
    {
        !self.is_nan() && !other.is_nan() && self.order() <= other.order()
    }

    /// `self < other` as numbers compare.
    pub fn below(self, other: Single) -> (r: bool)
        ensures
            r == self.lt(other),
    {
        !self.is_nan() && !other.is_nan() && self.order() < other.order()
    }

    /// `lo <= self <= hi` as numbers compare.
    pub fn within(self, lo: Single, hi: Single) -> (r: bool)
        ensures
            r == (lo.le(self) && self.le(hi)),
    {
        lo.at_most(self) && self.at_most(hi)
    }

    /// `self` stands at or before `other` in the total order of patterns.
    pub fn total_at_most(self, other: Single) -> (r: bool)
        ensures
            r == (self.total_rank() <= other.total_rank()),
    {
        let (s, a) = self.sign_and_magnitude();
        let (t, b) = other.sign_and_magnitude();
        if s {
            if t {
                b <= a
            } else {
                true
            }
        } else if t {
            false
        } else {
            a <= b
        }
    }

    /// `self` kept between two bounds; what is not a number stays as it is.
    pub open spec fn clamped(self, lo: Single, hi: Single) -> Single {
        if self.lt(lo) {
            lo
        } else if hi.lt(self) {
            hi
        } else {
            self
        }
    }

    /// `self` kept between two bounds.
    pub fn clamp(self, lo: Single, hi: Single) -> (r: Single)
        ensures
            r == self.clamped(lo, hi),
    {
        if self.below(lo) {
            lo
        } else if hi.below(self) {
            hi
        } else {
            self
        }
    }
}

/// The pattern of a 32-bit value by its bits.
pub open spec fn single(bits: u32) -> Single {
    Single { bits }
}

/// The pattern of a 64-bit value by its bits.
pub open spec fn double(bits: u64) -> Double {
    Double { bits }
}

/// A magnitude in 64 bits rounded to 32 bits, nearest and ties to even. From
/// the smallest normal 32-bit value on, both patterns count the same steps,
/// two to the 29 of the one to a step of the other; below it the 32-bit pattern
/// counts multiples of two to the -149.
pub open spec fn narrowed_magnitude(a: int) -> int {
    if a > inf64() {
        0x7fc0_0000
    } else if a >= 897 * unit64() {
        let k = nearest_even((a - 896 * unit64()) as nat, 0x2000_0000) as int;
        if k > inf32() {
            inf32()
        } else {
            k
        }
    } else {
        let e = a / unit64();
        if e == 0 {
            0
        } else {
            nearest_even((a % unit64() + unit64()) as nat, two_to((926 - e) as nat)) as int
        }
    }
}

proof fn lemma_small_quotient(n: nat, e: nat)
    requires
        n < 0x20_0000_0000_0000,
        e >= 55,
    ensures
        nearest_even(n, two_to(e)) == 0,
{
    lemma_two_to_bound(55, e);
    assert(two_to(55) == 0x80_0000_0000_0000) by {
        lemma_two_to_values();
    }
    let d = two_to(e);
    assert(n / d == 0) by (nonlinear_arith)
        requires
            0 <= n < d,
    ;
    assert(n % d == n) by (nonlinear_arith)
        requires
            0 <= n < d,
    ;
}

impl Double {
    /// The nearest 32-bit value, ties to even.
    pub open spec fn narrowed(self) -> Single {
        if self.negative() {
            single((narrowed_magnitude(self.magnitude()) + sign32()) as u32)
        } else {
            single(narrowed_magnitude(self.magnitude()) as u32)
        }
    }

    /// The nearest 32-bit value, ties to even.
    pub fn narrow(self) -> (r: Single)
        ensures
            r == self.narrowed(),
            r.negative() == self.negative(),
            r.magnitude() == narrowed_magnitude(self.magnitude()),
    {
        let (s, a) = self.sign_and_magnitude();
        let k: u64 = if a > 0x7ff0_0000_0000_0000 {
            0x7fc0_0000
        } else if a >= 897 * 0x10_0000_0000_0000 {
            let k: u64 = divide_nearest_even(a - 896 * 0x10_0000_0000_0000, 0x2000_0000);
            if k > 0x7f80_0000 {
                0x7f80_0000
            } else {
                k
            }
        } else {
            let e: u64 = a / 0x10_0000_0000_0000;
            if e == 0 {
                0
            } else {
                let n: u64 = a % 0x10_0000_0000_0000 + 0x10_0000_0000_0000;
                if 926 - e >= 55 {
                    proof {
                        lemma_small_quotient(n as nat, (926 - e) as nat);
                    }
                    0
                } else {
                    let d: u64 = power_of_two((926 - e) as u32);
                    proof {
                        lemma_two_to_bound(30, (926 - e) as nat);
                        lemma_two_to_bound((926 - e) as nat, 54);
                        assert(two_to(30) == 0x4000_0000) by {
                            lemma_two_to_values();
                        }
                        assert(two_to(54) == 0x40_0000_0000_0000) by {
                            lemma_two_to_values();
                        }
                        assert(n / d <= 0x80_0000) by (nonlinear_arith)
                            requires
                                n < 0x20_0000_0000_0000,
                                d >= 0x4000_0000,
                        ;
                    }
                    divide_nearest_even(n, d)
                }
            }
        };
        if s {
            Single { bits: k as u32 + 0x8000_0000 }
        } else {
            Single { bits: k as u32 }
        }
    }
}

/// A magnitude in 32 bits as the 64-bit magnitude of the same value.
pub open spec fn widened_magnitude(k: int) -> int {
    if k >= inf32() {
        inf64() + (k - inf32()) * 0x2000_0000
    } else if k >= unit32() {
        k * 0x2000_0000 + 896 * unit64()
    } else if k == 0 {
        0
    } else {
        let h = top_bit(k as nat);
        (874 + h) * unit64() + (k - two_to(h)) * two_to((52 - h) as nat)
    }
}

proof fn lemma_scaled_below_unit(k: nat, h: nat)
    requires
        h <= 52,
        two_to(h) <= k < 2 * two_to(h),
    ensures
        0 <= (k - two_to(h)) * two_to((52 - h) as nat) < unit64(),
{
    let p = two_to(h) as int;
    let q = two_to((52 - h) as nat) as int;
    assert(p * q == unit64()) by {
        lemma_two_to_adds(h, (52 - h) as nat);
        assert(h + (52 - h) as nat == 52);
        lemma_two_to_52();
    }
    assert(q >= 1) by {
        lemma_two_to_bound((52 - h) as nat, 52);
    }
    assert(0 <= (k - p) * q < p * q) by (nonlinear_arith)
        requires
            0 <= k - p < p,
            q >= 1,
    ;
}

impl Single {
    /// The 64-bit value that is the same number.
    pub open spec fn widened(self) -> Double {
        if self.negative() {
            double((widened_magnitude(self.magnitude()) + sign64()) as u64)
        } else {
            double(widened_magnitude(self.magnitude()) as u64)
        }
    }

    /// The 64-bit value that is the same number.
    pub fn widen(self) -> (r: Double)
        ensures
            r == self.widened(),
            r.negative() == self.negative(),
            r.magnitude() == widened_magnitude(self.magnitude()),
    {
        let (s, m) = self.sign_and_magnitude();
        let k: u64 = m as u64;
        let a: u64 = if k >= 0x7f80_0000 {
            0x7ff0_0000_0000_0000 + (k - 0x7f80_0000) * 0x2000_0000
        } else if k >= 0x80_0000 {
            k * 0x2000_0000 + 896 * 0x10_0000_0000_0000
        } else if k == 0 {
            0
        } else {
            let h: u32 = find_top_bit(k);
            proof {
                lemma_top_bit(k as nat);
                assert(two_to(23) == 0x80_0000) by {
                    lemma_two_to_values();
                }
                lemma_top_bit_max(k as nat, 23);
                lemma_scaled_below_unit(k as nat, h as nat);
                lemma_two_to_small((52 - h) as nat);
            }
            let low: u64 = power_of_two(h);
            let scale: u64 = power_of_two(52 - h);
            (874 + h as u64) * 0x10_0000_0000_0000 + (k - low) * scale
        };
        if s {
            Double { bits: a + 0x8000_0000_0000_0000 }
        } else {
            Double { bits: a }
        }
    }
}

/// Widening a number and narrowing it again gives the number back.
pub proof fn narrowing_undoes_widening(x: Single)
    requires
        !x.nan(),
    ensures
        x.widened().narrowed() == x,
{
    let k = x.magnitude();
    let a = widened_magnitude(k);
    assert(two_to(23) == 0x80_0000) by {
        lemma_two_to_values();
    }
    if 0 < k < unit32() {
        let h = top_bit(k as nat);
        lemma_top_bit(k as nat);
        lemma_top_bit_max(k as nat, 23);
        lemma_scaled_below_unit(k as nat, h);
        let low = (k - two_to(h)) * two_to((52 - h) as nat);
        assert(a / unit64() == 874 + h);
        assert(a % unit64() == low);
        lemma_two_to_adds(h, (52 - h) as nat);
        assert(two_to(52) == 0x10_0000_0000_0000) by {
            lemma_two_to_values();
        }
        let d = two_to((52 - h) as nat);
        lemma_two_to_bound((52 - h) as nat, 52);
        assert(low + unit64() == k * d) by (nonlinear_arith)
            requires
                low == (k - two_to(h)) * d,
                unit64() == two_to(h) * d,
        ;
        assert((k * d) / (d as int) == k && (k * d) % (d as int) == 0) by {
            vstd::arithmetic::div_mod::lemma_div_multiples_vanish(k, d as int);
            vstd::arithmetic::div_mod::lemma_mod_multiples_basic(k, d as int);
            assert(k * d == d * k) by (nonlinear_arith);
        }
        assert(926 - (874 + h) == 52 - h);
        assert(nearest_even((low + unit64()) as nat, d) == k);
        assert(narrowed_magnitude(a) == k);
    } else if k >= unit32() && k < inf32() {
        assert(a - 896 * unit64() == k * 0x2000_0000);
        assert(narrowed_magnitude(a) == k);
    } else {
        assert(narrowed_magnitude(a) == k);
    }
    assert(0 <= a < sign64());
}

/// The 64-bit magnitude nearest to a whole number, ties to even.
pub open spec fn whole_magnitude(n: nat) -> int {
    if n == 0 {
        0
    } else {
        let h = top_bit(n);
        if h <= 52 {
            (1023 + h) * unit64() + (n - two_to(h)) * two_to((52 - h) as nat)
        } else {
            (1023 + h) * unit64() + (nearest_even(n, two_to((h - 52) as nat)) - unit64())
        }
    }
}

/// The 64-bit value nearest to a whole number, ties to even.
pub open spec fn double_of(n: u64) -> Double {
    double(whole_magnitude(n as nat) as u64)
}

/// The 64-bit value nearest to a negative whole number's size, with its sign.
pub open spec fn double_of_signed(n: i64) -> Double {
    if n < 0 {
        double((whole_magnitude((-n) as nat) + sign64()) as u64)
    } else {
        double(whole_magnitude(n as nat) as u64)
    }
}

proof fn lemma_wide_quotient(n: nat, h: nat)
    requires
        53 <= h <= 63,
        two_to(h) <= n < 2 * two_to(h),
    ensures
        2 <= two_to((h - 52) as nat) <= 2048,
        unit64() <= n / two_to((h - 52) as nat) < 2 * unit64(),
{
    let d = two_to((h - 52) as nat);
    assert(2 <= d <= 2048) by {
        lemma_two_to_bound(1, (h - 52) as nat);
        lemma_two_to_bound((h - 52) as nat, 11);
        assert(two_to(1) == 2 && two_to(11) == 2048) by {
            lemma_two_to_values();
        }
    }
    let u = unit64();
    assert(two_to(h) == u * d) by {
        lemma_two_to_adds(52, (h - 52) as nat);
        assert(52 + (h - 52) as nat == h);
        lemma_two_to_52();
    }
    assert(u <= (n as int) / (d as int) < 2 * u) by (nonlinear_arith)
        requires
            d >= 1,
            u >= 1,
            u * d <= n < 2 * (u * d),
    ;
}

fn whole(n: u64) -> (r: u64)
    ensures
        r == whole_magnitude(n as nat),
        r < 0x7ff0_0000_0000_0000,
{
    if n == 0 {
        return 0;
    }
    let h: u32 = find_top_bit(n);
    proof {
        lemma_top_bit(n as nat);
    }
    if h <= 52 {
        proof {
            lemma_scaled_below_unit(n as nat, h as nat);
            lemma_two_to_small((52 - h) as nat);
        }
        let low: u64 = power_of_two(h);
        let scale: u64 = power_of_two(52 - h);
        (1023 + h as u64) * 0x10_0000_0000_0000 + (n - low) * scale
    } else {
        let d: u64 = power_of_two(h - 52);
        proof {
            lemma_wide_quotient(n as nat, h as nat);
        }
        let q: u64 = divide_nearest_even(n, d);
        (1023 + h as u64) * 0x10_0000_0000_0000 + (q - 0x10_0000_0000_0000)
    }
}

impl Double {
    /// The value nearest to a whole number, ties to even.
    pub fn of_unsigned(n: u64) -> (r: Double)
        ensures
            r == double_of(n),
            r.finite(),
    {
        Double { bits: whole(n) }
    }

    /// The value nearest to a whole number with a sign, ties to even.
    pub fn of_signed(n: i64) -> (r: Double)
        ensures
            r == double_of_signed(n),
            r.finite(),
    {
        if n < 0 {
            let size: u64 = if n == i64::MIN {
                0x8000_0000_0000_0000
            } else {
                (-n) as u64
            };
            Double { bits: whole(size) + 0x8000_0000_0000_0000 }
        } else {
            Double { bits: whole(n as u64) }
        }
    }
}

/// The 32-bit magnitude nearest to a whole number, ties to even.
pub open spec fn whole_magnitude_single(n: nat) -> int {
    if n == 0 {
        0
    } else {
        let h = top_bit(n);
        if h <= 23 {
            (127 + h) * unit32() + (n - two_to(h)) * two_to((23 - h) as nat)
        } else {
            (127 + h) * unit32() + (nearest_even(n, two_to((h - 23) as nat)) - unit32())
        }
    }
}

/// The 32-bit value nearest to a whole number, ties to even.
pub open spec fn single_of(n: u64) -> Single {
    single(whole_magnitude_single(n as nat) as u32)
}

/// The 32-bit value nearest to a whole number with a sign, ties to even.
pub open spec fn single_of_signed(n: i64) -> Single {
    if n < 0 {
        single((whole_magnitude_single((-n) as nat) + sign32()) as u32)
    } else {
        single(whole_magnitude_single(n as nat) as u32)
    }
}

proof fn lemma_two_to_23()
    ensures
        two_to(23) == unit32(),
{
    lemma_two_to_values();
}

proof fn lemma_scaled_below_single_unit(k: nat, h: nat)
    requires
        h <= 23,
        two_to(h) <= k < 2 * two_to(h),
    ensures
        0 <= (k - two_to(h)) * two_to((23 - h) as nat) < unit32(),
{
    let p = two_to(h) as int;
    let q = two_to((23 - h) as nat) as int;
    assert(p * q == unit32()) by {
        lemma_two_to_adds(h, (23 - h) as nat);
        assert(h + (23 - h) as nat == 23);
        lemma_two_to_23();
    }
    assert(q >= 1) by {
        lemma_two_to_bound((23 - h) as nat, 23);
    }
    assert(0 <= (k - p) * q < p * q) by (nonlinear_arith)
        requires
            0 <= k - p < p,
            q >= 1,
    ;
}

proof fn lemma_wide_single_quotient(n: nat, h: nat)
    requires
        24 <= h <= 63,
        two_to(h) <= n < 2 * two_to(h),
    ensures
        2 <= two_to((h - 23) as nat) <= 0x100_0000_0000,
        unit32() <= n / two_to((h - 23) as nat) < 2 * unit32(),
{
    let d = two_to((h - 23) as nat);
    assert(2 <= d <= 0x100_0000_0000) by {
        lemma_two_to_bound(1, (h - 23) as nat);
        lemma_two_to_bound((h - 23) as nat, 40);
        assert(two_to(1) == 2 && two_to(40) == 0x100_0000_0000) by {
            lemma_two_to_values();
        }
    }
    let u = unit32();
    assert(two_to(h) == u * d) by {
        lemma_two_to_adds(23, (h - 23) as nat);
        assert(23 + (h - 23) as nat == h);
        lemma_two_to_23();
    }
    assert(u <= (n as int) / (d as int) < 2 * u) by (nonlinear_arith)
        requires
            d >= 1,
            u >= 1,
            u * d <= n < 2 * (u * d),
    ;
}

fn whole_single(n: u64) -> (r: u32)
    ensures
        r == whole_magnitude_single(n as nat),
        r < 0x7f80_0000,
{
    if n == 0 {
        return 0;
    }
    let h: u32 = find_top_bit(n);
    proof {
        lemma_top_bit(n as nat);
    }
    if h <= 23 {
        proof {
            lemma_scaled_below_single_unit(n as nat, h as nat);
            lemma_two_to_small((23 - h) as nat);
        }
        let low: u64 = power_of_two(h);
        let scale: u64 = power_of_two(23 - h);
        let rest: u64 = (n - low) * scale;
        (127 + h) * 0x80_0000 + rest as u32
    } else {
        let d: u64 = power_of_two(h - 23);
        proof {
            lemma_wide_single_quotient(n as nat, h as nat);
        }
        let q: u64 = divide_nearest_even(n, d);
        (127 + h) * 0x80_0000 + (q - 0x80_0000) as u32
    }
}

impl Single {
    /// The value nearest to a whole number, ties to even.
    pub fn of_unsigned(n: u64) -> (r: Single)
        ensures
            r == single_of(n),
            r.finite(),
    {
        Single { bits: whole_single(n) }
    }

    /// The value nearest to a whole number with a sign, ties to even.
    pub fn of_signed(n: i64) -> (r: Single)
        ensures
            r == single_of_signed(n),
            r.finite(),
    {
        if n < 0 {
            let size: u64 = if n == i64::MIN {
                0x8000_0000_0000_0000
            } else {
                (-n) as u64
            };
            Single { bits: whole_single(size) + 0x8000_0000 }
        } else {
            Single { bits: whole_single(n as u64) }
        }
    }
}

} // verus!
