//! Percentiles by the nearest rank, with the rank as 64-bit floating-point
//! arithmetic gives it.

use vstd::prelude::*;

use crate::ieee::{lemma_two_to_values, nearest_even, top_bit, two_to};
use crate::sort::{ascending, sort_numbers};

verus! {

/// A whole number rounded to 53 significant bits, nearest and ties to even.
pub open spec fn rounded53(n: nat) -> nat {
    if top_bit(n) <= 52 {
        n
    } else {
        nearest_even(n, two_to((top_bit(n) - 52) as nat)) * two_to((top_bit(n) - 52) as nat)
    }
}

/// How far one hundredth is scaled up so that `pct` of them have 53 bits.
pub open spec fn scale_of(pct: nat) -> nat {
    if pct >= 100 {
        52
    } else if pct >= 50 {
        53
    } else if pct >= 25 {
        54
    } else if pct >= 13 {
        55
    } else if pct >= 7 {
        56
    } else if pct >= 4 {
        57
    } else if pct >= 2 {
        58
    } else {
        59
    }
}

/// The 64-bit value nearest to `pct / 100`, in units of two to the -60.
pub open spec fn hundredths(pct: nat) -> nat {
    if pct == 0 {
        0
    } else {
        nearest_even(pct * two_to(scale_of(pct)), 100) * two_to((60 - scale_of(pct)) as nat)
    }
}

/// The rank of a percentile among `n` values: `(n - 1) * (pct / 100)`, each
/// step rounded to 64-bit arithmetic, then to the nearest whole number, halves
/// upward.
pub open spec fn rank_index(n: nat, pct: nat) -> nat {
    let p = if pct > 100 {
        100
    } else {
        pct
    };
    (rounded53(((n - 1) * hundredths(p)) as nat) + two_to(59)) / two_to(60)
}

proof fn lemma_powers()
    ensures
        two_to(52) == 0x10_0000_0000_0000,
        two_to(53) == 0x20_0000_0000_0000,
        two_to(59) == 0x800_0000_0000_0000,
        two_to(60) == 0x1000_0000_0000_0000,
{
    lemma_two_to_values();
}

proof fn lemma_small_powers()
    ensures
        two_to(1) == 2,
        two_to(2) == 4,
        two_to(3) == 8,
        two_to(4) == 16,
        two_to(5) == 32,
        two_to(6) == 64,
        two_to(7) == 128,
        two_to(8) == 256,
        two_to(54) == 0x40_0000_0000_0000,
        two_to(55) == 0x80_0000_0000_0000,
        two_to(56) == 0x100_0000_0000_0000,
        two_to(57) == 0x200_0000_0000_0000,
        two_to(58) == 0x400_0000_0000_0000,
{
    lemma_powers();
    lemma_two_to_values();
    assert(two_to(2) == 2 * two_to(1));
    assert(two_to(3) == 2 * two_to(2));
    assert(two_to(4) == 2 * two_to(3));
    assert(two_to(5) == 2 * two_to(4));
    assert(two_to(6) == 2 * two_to(5));
    assert(two_to(7) == 2 * two_to(6));
    assert(two_to(54) == 2 * two_to(53));
    assert(two_to(55) == 2 * two_to(54));
    assert(two_to(56) == 2 * two_to(55));
    assert(two_to(57) == 2 * two_to(56));
    assert(two_to(58) == 2 * two_to(57));
}

fn wide_nearest_even(n: u128, d: u128) -> (r: u128)
    requires
        2 <= d <= 0x4000_0000_0000_0000_0000_0000_0000_0000,
    ensures
        r == nearest_even(n as nat, d as nat),
        n / d <= r <= n / d + 1,
{
    let q: u128 = n / d;
    let rest: u128 = n % d;
    assert(q <= n / 2) by (nonlinear_arith)
        requires
            q == n / d,
            d >= 2,
            n >= 0,
    ;
    if 2 * rest < d || (2 * rest == d && q % 2 == 0) {
        q
    } else {
        q + 1
    }
}

fn read_hundredths(pct: u64) -> (r: u128)
    requires
        pct <= 100,
    ensures
        r == hundredths(pct as nat),
        r <= 0x1000_0000_0000_0000,
{
    if pct == 0 {
        return 0;
    }
    proof {
        lemma_powers();
        lemma_small_powers();
    }
    let p: u128 = pct as u128;
    if pct >= 100 {
        wide_nearest_even(p * 0x10_0000_0000_0000, 100) * 256
    } else if pct >= 50 {
        wide_nearest_even(p * 0x20_0000_0000_0000, 100) * 128
    } else if pct >= 25 {
        wide_nearest_even(p * 0x40_0000_0000_0000, 100) * 64
    } else if pct >= 13 {
        wide_nearest_even(p * 0x80_0000_0000_0000, 100) * 32
    } else if pct >= 7 {
        wide_nearest_even(p * 0x100_0000_0000_0000, 100) * 16
    } else if pct >= 4 {
        wide_nearest_even(p * 0x200_0000_0000_0000, 100) * 8
    } else if pct >= 2 {
        wide_nearest_even(p * 0x400_0000_0000_0000, 100) * 4
    } else {
        wide_nearest_even(p * 0x800_0000_0000_0000, 100) * 2
    }
}

proof fn lemma_top_bit_bounds(n: nat)
    requires
        n >= 1,
    ensures
        two_to(top_bit(n)) <= n < 2 * two_to(top_bit(n)),
    decreases n,
{
    if n > 1 {
        lemma_top_bit_bounds(n / 2);
    }
}

proof fn lemma_two_to_monotone(e: nat, f: nat)
    requires
        e <= f,
    ensures
        1 <= two_to(e) <= two_to(f),
    decreases f,
{
    if e < f {
        lemma_two_to_monotone(e, (f - 1) as nat);
    } else if e > 0 {
        lemma_two_to_monotone((e - 1) as nat, (f - 1) as nat);
    }
}

proof fn lemma_two_to_sum(e: nat, f: nat)
    ensures
        two_to(e + f) == two_to(e) * two_to(f),
    decreases e,
{
    if e > 0 {
        lemma_two_to_sum((e - 1) as nat, f);
        assert((e + f - 1) as nat == (e - 1) as nat + f);
        assert(2 * (two_to((e - 1) as nat) * two_to(f)) == (2 * two_to((e - 1) as nat)) * two_to(f))
            by (nonlinear_arith);
    } else {
        assert(1 * two_to(f) == two_to(f)) by (nonlinear_arith);
    }
}

/// A product below `k * 2^60`, with `k` below `2^53`, stays at or below it when
/// it is rounded to 53 bits.
proof fn lemma_rounded_stays_below(x: nat, k: nat)
    requires
        k < 0x20_0000_0000_0000,
        x <= k * 0x1000_0000_0000_0000,
    ensures
        rounded53(x) <= k * 0x1000_0000_0000_0000,
        top_bit(x) <= 112,
{
    lemma_powers();
    let t = top_bit(x);
    let y = k * 0x1000_0000_0000_0000;
    if x == 0 {
    } else {
        lemma_top_bit_bounds(x);
        if t > 112 {
            lemma_two_to_monotone(113, t);
            lemma_two_to_sum(53, 60);
            assert(false);
        }
        if t > 52 {
            let e = (t - 52) as nat;
            let g = two_to(e);
            lemma_two_to_sum(e, (60 - e) as nat);
            assert(e + (60 - e) as nat == 60);
            lemma_two_to_monotone(0, e);
            let h = two_to((60 - e) as nat);
            assert(g * h == 0x1000_0000_0000_0000);
            let m = k * h;
            assert(y == m * g) by (nonlinear_arith)
                requires
                    y == k * 0x1000_0000_0000_0000,
                    g * h == 0x1000_0000_0000_0000,
                    m == k * h,
            ;
            lemma_nearest_below(x, g, m);
        }
    }
}

proof fn lemma_nearest_below(x: nat, g: nat, m: nat)
    requires
        g >= 1,
        x <= m * g,
    ensures
        nearest_even(x, g) * g <= m * g,
{
    let q = x / g;
    let rest = x % g;
    vstd::arithmetic::div_mod::lemma_fundamental_div_mod(x as int, g as int);
    assert(q <= m && (q == m ==> rest == 0)) by (nonlinear_arith)
        requires
            x == g * q + rest,
            rest >= 0,
            x <= m * g,
            g >= 1,
    ;
    let r = nearest_even(x, g);
    assert(r <= m);
    assert(r * g <= m * g) by (nonlinear_arith)
        requires
            r <= m,
            g >= 1,
    ;
}

fn find_top_bit(n: u128) -> (r: u32)
    requires
        top_bit(n as nat) <= 127,
    ensures
        r == top_bit(n as nat),
{
    let mut r: u32 = 0;
    let mut rest: u128 = n;
    while rest > 1
        invariant
            r + top_bit(rest as nat) == top_bit(n as nat),
            top_bit(n as nat) <= 127,
        decreases rest,
    {
        rest = rest / 2;
        r += 1;
    }
    r
}

fn round53(n: u128, Ghost(k): Ghost<nat>) -> (r: u128)
    requires
        k < 0x20_0000_0000_0000,
        n <= k * 0x1000_0000_0000_0000,
    ensures
        r == rounded53(n as nat),
        r <= k * 0x1000_0000_0000_0000,
{
    proof {
        lemma_rounded_stays_below(n as nat, k);
        lemma_powers();
    }
    let t: u32 = find_top_bit(n);
    if t <= 52 {
        n
    } else {
        let mut g: u128 = 1;
        let mut i: u32 = 52;
        while i < t
            invariant
                52 <= i <= t <= 112,
                g == two_to((i - 52) as nat),
            decreases t - i,
        {
            proof {
                lemma_two_to_monotone((i - 52) as nat, 60);
                lemma_powers();
            }
            g = g * 2;
            i += 1;
        }
        proof {
            lemma_two_to_monotone((t - 52) as nat, 60);
            lemma_two_to_monotone(1, (t - 52) as nat);
            lemma_small_powers();
        }
        let q: u128 = wide_nearest_even(n, g);
        assert(k * 0x1000_0000_0000_0000 < 0x20_0000_0000_0000 * 0x1000_0000_0000_0000);
        q * g
    }
}

proof fn lemma_rank_in_range(n: nat, pct: nat)
    requires
        1 <= n <= 0x20_0000_0000_0000,
    ensures
        rank_index(n, pct) < n,
{
    let p = if pct > 100 {
        100
    } else {
        pct
    };
    lemma_powers();
    lemma_hundredths_bound(p);
    let k = (n - 1) as nat;
    let h = hundredths(p);
    assert(k * h <= k * 0x1000_0000_0000_0000) by (nonlinear_arith)
        requires
            h <= 0x1000_0000_0000_0000,
            k >= 0,
    ;
    lemma_rounded_stays_below((k * h) as nat, k);
}

proof fn lemma_hundredths_bound(pct: nat)
    requires
        pct <= 100,
    ensures
        hundredths(pct) <= 0x1000_0000_0000_0000,
{
    lemma_powers();
    lemma_small_powers();
    if pct > 0 {
        let e = scale_of(pct);
        let up = two_to(e);
        let down = two_to((60 - e) as nat);
        assert(nearest_even(pct * up, 100) <= pct * up / 100 + 1);
        if pct >= 100 {
            assert(up == 0x10_0000_0000_0000 && down == 256);
        } else if pct >= 50 {
            assert(up == 0x20_0000_0000_0000 && down == 128);
        } else if pct >= 25 {
            assert(up == 0x40_0000_0000_0000 && down == 64);
        } else if pct >= 13 {
            assert(up == 0x80_0000_0000_0000 && down == 32);
        } else if pct >= 7 {
            assert(up == 0x100_0000_0000_0000 && down == 16);
        } else if pct >= 4 {
            assert(up == 0x200_0000_0000_0000 && down == 8);
        } else if pct >= 2 {
            assert(up == 0x400_0000_0000_0000 && down == 4);
        } else {
            assert(up == 0x800_0000_0000_0000 && down == 2);
        }
    }
}

fn index_of(n: usize, percentile: u64) -> (r: usize)
    requires
        1 <= n <= 0x20_0000_0000_0000,
    ensures
        r == rank_index(n as nat, percentile as nat),
        r < n,
{
    let p: u64 = if percentile > 100 {
        100
    } else {
        percentile
    };
    let h: u128 = read_hundredths(p);
    let k: u128 = (n - 1) as u128;
    proof {
        assert(k * h <= k * 0x1000_0000_0000_0000) by (nonlinear_arith)
            requires
                h <= 0x1000_0000_0000_0000,
                k >= 0,
        ;
        assert(k * 0x1000_0000_0000_0000 < 0x20_0000_0000_0000 * 0x1000_0000_0000_0000);
        lemma_powers();
        lemma_rank_in_range(n as nat, percentile as nat);
    }
    let x: u128 = k * h;
    let rounded: u128 = round53(x, Ghost(k as nat));
    ((rounded + 0x800_0000_0000_0000) / 0x1000_0000_0000_0000) as usize
}

/// The values in ascending order, which there is only one of.
pub open spec fn is_sorting(values: Seq<u64>, s: Seq<u64>) -> bool {
    ascending(s) && s.len() == values.len() && s.to_multiset() == values.to_multiset()
}

/// The value at a percentile, by the nearest rank; zero where there are no
/// values.
pub open spec fn percentile_of(values: Seq<u64>, percentile: nat) -> u64 {
    if values.len() == 0 {
        0
    } else {
        let s = choose|s: Seq<u64>| is_sorting(values, s);
        s[rank_index(values.len(), percentile) as int]
    }
}

/// The value at a percentile, by the nearest rank; zero where there are no
/// values.
pub fn percentile_ms(values: &Vec<u64>, percentile: u64) -> (r: u64)
    requires
        values@.len() <= 0x20_0000_0000_0000,
    ensures
        r == percentile_of(values@, percentile as nat),
        values@.len() == 0 ==> r == 0,
        values@.len() > 0 ==> rank_index(values@.len(), percentile as nat) < values@.len()
            && exists|s: Seq<u64>|
            #[trigger] is_sorting(values@, s) && r == s[rank_index(
                values@.len(),
                percentile as nat,
            ) as int],
{
    if values.is_empty() {
        return 0;
    }
    let mut sorted: Vec<u64> = Vec::new();
    let mut i: usize = 0;
    while i < values.len()
        invariant
            i <= values@.len(),
            sorted@ == values@.take(i as int),
        decreases values@.len() - i,
    {
        sorted.push(values[i]);
        i += 1;
    }
    assert(values@.take(i as int) =~= values@);
    sort_numbers(&mut sorted);
    assert(is_sorting(values@, sorted@));
    proof {
        sorting_is_unique(values@, sorted@, choose|s: Seq<u64>| is_sorting(values@, s));
    }
    let at: usize = index_of(sorted.len(), percentile);
    sorted[at]
}

/// Two ascending sequences of the same values are the same, so that a
/// percentile has only one value.
pub proof fn sorting_is_unique(values: Seq<u64>, s: Seq<u64>, t: Seq<u64>)
    requires
        is_sorting(values, s),
        is_sorting(values, t),
    ensures
        s == t,
    decreases s.len(),
{
    broadcast use vstd::seq_lib::group_to_multiset_ensures;

    if s.len() > 0 {
        let a = s.last();
        let b = t.last();
        assert(s.to_multiset().count(a) > 0) by {
            assert(s.contains(a));
        }
        assert(t.contains(a));
        let i = choose|i: int| 0 <= i < t.len() && t[i] == a;
        assert(a <= b) by {
            if i < t.len() - 1 {
                assert(t[i] <= t[t.len() - 1]);
            }
        }
        assert(t.to_multiset().count(b) > 0) by {
            assert(t.contains(b));
        }
        assert(s.contains(b));
        let j = choose|j: int| 0 <= j < s.len() && s[j] == b;
        assert(b <= a) by {
            if j < s.len() - 1 {
                assert(s[j] <= s[s.len() - 1]);
            }
        }
        let s2 = s.drop_last();
        let t2 = t.drop_last();
        assert(s =~= s2.push(a));
        assert(t =~= t2.push(a));
        assert(s.to_multiset() =~= s2.to_multiset().insert(a));
        assert(t.to_multiset() =~= t2.to_multiset().insert(a));
        assert(s2.to_multiset() =~= s.to_multiset().remove(a));
        assert(t2.to_multiset() =~= t.to_multiset().remove(a));
        assert forall|x: int, y: int| 0 <= x < y < s2.len() implies #[trigger] s2[x]
            <= #[trigger] s2[y] by {
            assert(s[x] <= s[y]);
        }
        assert forall|x: int, y: int| 0 <= x < y < t2.len() implies #[trigger] t2[x]
            <= #[trigger] t2[y] by {
            assert(t[x] <= t[y]);
        }
        sorting_is_unique(s2, s2, t2);
    } else {
        assert(s =~= t);
    }
}

proof fn lemma_nearest_grows(x: nat, y: nat, d: nat)
    requires
        x <= y,
        d >= 1,
    ensures
        nearest_even(x, d) <= nearest_even(y, d),
{
    vstd::arithmetic::div_mod::lemma_fundamental_div_mod(x as int, d as int);
    vstd::arithmetic::div_mod::lemma_fundamental_div_mod(y as int, d as int);
    vstd::arithmetic::div_mod::lemma_div_is_ordered(x as int, y as int, d as int);
}

proof fn lemma_top_bit_grows(x: nat, y: nat)
    requires
        x <= y,
    ensures
        top_bit(x) <= top_bit(y),
    decreases x,
{
    if x > 1 {
        lemma_top_bit_grows(x / 2, y / 2);
    }
}

/// Rounding to 53 bits keeps a number between the powers of two around it.
proof fn lemma_rounded_between(x: nat)
    requires
        x >= 1,
    ensures
        two_to(top_bit(x)) <= rounded53(x) <= two_to(top_bit(x) + 1),
{
    let t = top_bit(x);
    lemma_top_bit_bounds(x);
    if t > 52 {
        let e = (t - 52) as nat;
        let g = two_to(e);
        lemma_powers();
        lemma_two_to_monotone(0, e);
        lemma_two_to_sum(52, e);
        assert(52 + e == t);
        lemma_two_to_sum(53, e);
        assert(53 + e == t + 1);
        lemma_nearest_below(x, g, 0x20_0000_0000_0000);
        let q = x / g;
        let r = nearest_even(x, g);
        vstd::arithmetic::div_mod::lemma_fundamental_div_mod(x as int, g as int);
        vstd::arithmetic::div_mod::lemma_div_is_ordered(
            0x10_0000_0000_0000 * g as int,
            x as int,
            g as int,
        );
        vstd::arithmetic::div_mod::lemma_div_multiples_vanish(0x10_0000_0000_0000, g as int);
        assert(0x10_0000_0000_0000 * g == g * 0x10_0000_0000_0000);
        assert(r >= q >= 0x10_0000_0000_0000);
        assert(r * g >= 0x10_0000_0000_0000 * g) by (nonlinear_arith)
            requires
                r >= 0x10_0000_0000_0000,
                g >= 1,
        ;
    }
}

proof fn lemma_rounded_grows(x: nat, y: nat)
    requires
        x <= y,
    ensures
        rounded53(x) <= rounded53(y),
{
    let t = top_bit(x);
    let u = top_bit(y);
    lemma_top_bit_grows(x, y);
    if x >= 1 {
        if t < u {
            lemma_rounded_between(x);
            lemma_rounded_between(y);
            lemma_two_to_monotone(t + 1, u);
        } else if t > 52 {
            let g = two_to((t - 52) as nat);
            lemma_two_to_monotone(0, (t - 52) as nat);
            lemma_nearest_grows(x, y, g);
            let a = nearest_even(x, g);
            let b = nearest_even(y, g);
            assert(a * g <= b * g) by (nonlinear_arith)
                requires
                    a <= b,
                    g >= 1,
            ;
        }
    }
}

/// How near the value of a hundredth is to the hundredth itself.
proof fn lemma_hundredths_near(pct: nat)
    requires
        pct <= 100,
    ensures
        pct * 0x1000_0000_0000_0000 - 25600 <= 100 * hundredths(pct) <= pct * 0x1000_0000_0000_0000
            + 25600,
{
    lemma_powers();
    lemma_small_powers();
    if pct > 0 {
        let e = scale_of(pct);
        let up = two_to(e);
        let down = two_to((60 - e) as nat);
        let r = nearest_even(pct * up, 100);
        assert(pct * up - 100 <= 100 * r <= pct * up + 100);
        if pct >= 100 {
            assert(up == 0x10_0000_0000_0000 && down == 256);
        } else if pct >= 50 {
            assert(up == 0x20_0000_0000_0000 && down == 128);
        } else if pct >= 25 {
            assert(up == 0x40_0000_0000_0000 && down == 64);
        } else if pct >= 13 {
            assert(up == 0x80_0000_0000_0000 && down == 32);
        } else if pct >= 7 {
            assert(up == 0x100_0000_0000_0000 && down == 16);
        } else if pct >= 4 {
            assert(up == 0x200_0000_0000_0000 && down == 8);
        } else if pct >= 2 {
            assert(up == 0x400_0000_0000_0000 && down == 4);
        } else {
            assert(up == 0x800_0000_0000_0000 && down == 2);
        }
    }
}

proof fn lemma_rank_grows(n: nat, p: nat, q: nat)
    requires
        n >= 1,
        p <= q,
    ensures
        rank_index(n, p) <= rank_index(n, q),
{
    let a = if p > 100 {
        100
    } else {
        p
    };
    let b = if q > 100 {
        100
    } else {
        q
    };
    lemma_hundredths_near(a);
    lemma_hundredths_near(b);
    let g = hundredths(a);
    let h = hundredths(b);
    assert(g <= h);
    let k = (n - 1) as nat;
    assert(k * g <= k * h) by (nonlinear_arith)
        requires
            g <= h,
            k >= 0,
    ;
    lemma_rounded_grows(k * g, k * h);
    lemma_powers();
}

proof fn lemma_has_sorting(values: Seq<u64>)
    ensures
        is_sorting(values, choose|s: Seq<u64>| is_sorting(values, s)),
{
    let leq = |a: u64, b: u64| a <= b;
    let s = values.sort_by(leq);
    values.lemma_sort_by_ensures(leq);
    broadcast use vstd::seq_lib::group_to_multiset_ensures;

    assert(s.len() == values.len()) by {
        assert(s.to_multiset().len() == values.to_multiset().len());
    }
    assert forall|i: int, j: int| 0 <= i < j < s.len() implies #[trigger] s[i] <= #[trigger] s[j] by {
        assert(leq(s[i], s[j]));
    }
    assert(is_sorting(values, s));
}

/// The order of the values does not matter, the value grows with the
/// percentile, and from 100 on it stays the same.
pub proof fn percentiles_grow(values: Seq<u64>, other: Seq<u64>, p: nat, q: nat)
    requires
        values.len() <= 0x20_0000_0000_0000,
        other.to_multiset() == values.to_multiset(),
        p <= q,
    ensures
        percentile_of(other, p) == percentile_of(values, p),
        percentile_of(values, p) <= percentile_of(values, q),
        q >= 100 ==> percentile_of(values, q) == percentile_of(values, 100),
{
    broadcast use vstd::seq_lib::group_to_multiset_ensures;

    assert(other.len() == values.len()) by {
        assert(other.to_multiset().len() == other.len());
        assert(values.to_multiset().len() == values.len());
    }
    if values.len() > 0 {
        let s = choose|s: Seq<u64>| is_sorting(values, s);
        let t = choose|s: Seq<u64>| is_sorting(other, s);
        lemma_has_sorting(values);
        lemma_has_sorting(other);
        sorting_is_unique(values, s, t);
        lemma_rank_grows(values.len(), p, q);
        lemma_rank_in_range(values.len(), p);
        lemma_rank_in_range(values.len(), q);
        let i = rank_index(values.len(), p) as int;
        let j = rank_index(values.len(), q) as int;
        if i < j {
            assert(s[i] <= s[j]);
        }
    }
}

/// The percentile of some values is one of them: the one whose place, when they
/// are in order, is as near as any to that part of the way from the first to
/// the last. Stated of up to sixteen million values, for which the places are
/// computed without a rounding that shows.
pub proof fn percentiles_have_the_nearest_place(values: Seq<u64>, s: Seq<u64>, pct: nat)
    requires
        1 <= values.len() <= 0x100_0000,
        is_sorting(values, s),
    ensures
        exists|r: int|
            0 <= r < s.len() && #[trigger] s[r] == percentile_of(values, pct) && -50 <= 100 * r - (
            values.len() - 1) * (if pct > 100 {
                100int
            } else {
                pct as int
            }) <= 50,
{
    let chosen = choose|s: Seq<u64>| is_sorting(values, s);
    sorting_is_unique(values, s, chosen);
    let n = values.len();
    let p: nat = if pct > 100 {
        100
    } else {
        pct
    };
    lemma_rank_in_range(n, pct);
    lemma_rank_near(n, pct);
    let r = rank_index(n, pct) as int;
    assert(s[r] == percentile_of(values, pct));
}

proof fn lemma_rank_near(n: nat, pct: nat)
    requires
        1 <= n <= 0x100_0000,
    ensures
        -50 <= 100 * rank_index(n, pct) - (n - 1) * (if pct > 100 {
            100int
        } else {
            pct as int
        }) <= 50,
{
    let p: nat = if pct > 100 {
        100
    } else {
        pct
    };
    let m = (n - 1) as nat;
    let one: int = 0x1000_0000_0000_0000;
    let h = hundredths(p);
    let x = m * h;
    let y = rounded53(x);
    lemma_powers();
    lemma_hundredths_near(p);
    lemma_hundredths_bound(p);
    assert(m * p * one - 25600 * m <= 100 * x <= m * p * one + 25600 * m) by (nonlinear_arith)
        requires
            x == m * h,
            p * one - 25600 <= 100 * h <= p * one + 25600,
            m >= 0,
    ;
    assert(x <= 0x100_0000 * one) by (nonlinear_arith)
        requires
            x == m * h,
            m <= 0x100_0000,
            0 <= h <= one,
            one >= 0,
    ;
    lemma_rounding_error(x);
    assert(-0x1_0000_0000 <= y - x <= 0x1_0000_0000);
    let r = (y + two_to(59)) / two_to(60);
    assert(rank_index(n, pct) == r);
    assert(one * r <= y + one / 2 < one * r + one);
    let mp = m * p;
    assert(mp * one == m * p * one);
    assert(100 * r * one == 100 * (one * r)) by (nonlinear_arith);
    assert((100 * r - mp) * one == 100 * (one * r) - mp * one) by (nonlinear_arith);
    let d = 100 * r - mp;
    assert(-50 * one - one / 2 < d * one < 50 * one + one / 2);
    assert(-51 < d < 51) by (nonlinear_arith)
        requires
            -50 * one - one / 2 < d * one < 50 * one + one / 2,
            one == 0x1000_0000_0000_0000,
    ;
    assert(m * p == (n - 1) * p) by (nonlinear_arith)
        requires
            m == n - 1,
    ;
}

proof fn lemma_rounding_error(x: nat)
    requires
        x <= 0x100_0000 * 0x1000_0000_0000_0000,
    ensures
        -0x1_0000_0000 <= rounded53(x) - x <= 0x1_0000_0000,
{
    let t = top_bit(x);
    if t > 52 {
        lemma_top_bit_bounds(x);
        lemma_powers();
        let e = (t - 52) as nat;
        let g = two_to(e);
        lemma_two_to_monotone(0, e);
        lemma_two_to_sum(52, e);
        assert((52 + e) as nat == t);
        assert(g <= 0x1_0000_0000) by (nonlinear_arith)
            requires
                0x10_0000_0000_0000 * g <= x,
                x <= 0x100_0000 * 0x1000_0000_0000_0000,
        ;
        let q = x / g;
        vstd::arithmetic::div_mod::lemma_fundamental_div_mod(x as int, g as int);
        vstd::arithmetic::div_mod::lemma_mod_bound(x as int, g as int);
        assert((q + 1) * g == g * q + g) by (nonlinear_arith);
        assert(q * g == g * q) by (nonlinear_arith);
    }
}

} // verus!
