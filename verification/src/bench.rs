//! Settings and summaries of measurements.

use vstd::prelude::*;

use crate::digits::{parse_unsigned, parsed};
use crate::percentile::{percentile_ms, percentile_of};

verus! {

/// A number that a text asks for, kept between two bounds; a text that is no
/// number asks for the usual one.
pub open spec fn setting_of(raw: Option<Seq<char>>, usual: u64, low: u64, high: u64) -> u64 {
    let asked = match raw {
        Some(s) => match parsed(s, 10, u64::MAX as nat) {
            Some(n) => n as u64,
            None => usual,
        },
        None => usual,
    };
    if asked < low {
        low
    } else if asked > high {
        high
    } else {
        asked
    }
}

/// A number that a text asks for, kept between two bounds.
pub fn setting(raw: Option<&str>, usual: u64, low: u64, high: u64) -> (r: u64)
    requires
        low <= high,
    ensures
        r == setting_of(crate::text::opt_str(raw), usual, low, high),
        low <= r <= high,
{
    let asked: u64 = match raw {
        Some(s) => match parse_unsigned(s, 10, u64::MAX) {
            Some(n) => n,
            None => usual,
        },
        None => usual,
    };
    if asked < low {
        low
    } else if asked > high {
        high
    } else {
        asked
    }
}

/// How some measurements are spread.
#[derive(Clone, Copy, Debug, PartialEq, Eq, Structural)]
pub struct LatencyRanks {
    pub p50: u64,
    pub p95: u64,
    pub p99: u64,
    pub max: u64,
}

/// How some measurements are spread; all zero where there are none.
pub fn summarize(samples: &Vec<u64>) -> (r: LatencyRanks)
    requires
        samples@.len() <= 0x20_0000_0000_0000,
    ensures
        r.p50 == percentile_of(samples@, 50),
        r.p95 == percentile_of(samples@, 95),
        r.p99 == percentile_of(samples@, 99),
        samples@.len() == 0 ==> r.max == 0,
        samples@.len() > 0 ==> samples@.contains(r.max),
        forall|i: int| 0 <= i < samples@.len() ==> #[trigger] samples@[i] <= r.max,
{
    let mut max: u64 = 0;
    let mut i: usize = 0;
    while i < samples.len()
        invariant
            i <= samples@.len(),
            i == 0 ==> max == 0,
            i > 0 ==> samples@.contains(max),
            forall|j: int| 0 <= j < i ==> #[trigger] samples@[j] <= max,
        decreases samples@.len() - i,
    {
        if i == 0 || samples[i] > max {
            max = samples[i];
            assert(samples@[i as int] == max);
        }
        i += 1;
    }
    LatencyRanks {
        p50: percentile_ms(samples, 50),
        p95: percentile_ms(samples, 95),
        p99: percentile_ms(samples, 99),
        max,
    }
}

/// The place of a percentile among sorted measurements, rounded down.
pub fn floor_rank(count: usize, pct: usize) -> (r: Option<usize>)
    requires
        pct <= 100,
    ensures
        match r {
            Some(i) => count > 0 && i == (count - 1) * pct / 100 && i < count,
            None => count == 0,
        },
{
    if count == 0 {
        return None;
    }
    let n: u128 = (count - 1) as u128;
    let p: u128 = pct as u128;
    assert(n * p <= n * 100) by (nonlinear_arith)
        requires
            p <= 100,
            n >= 0,
    ;
    assert(n * 100 <= 0x1_0000_0000_0000_0000 * 100);
    let at: u128 = n * p / 100;
    assert(at <= n);
    Some(at as usize)
}

/// A setting is what was asked for where it lies within its bounds, the nearest
/// bound where it does not, and the usual one where nothing can be read.
pub proof fn settings_keep_their_bounds(raw: Option<Seq<char>>, usual: u64, low: u64, high: u64)
    requires
        low <= usual <= high,
    ensures
        ({
            let set = setting_of(raw, usual, low, high);
            let read = raw is Some && parsed(raw->0, 10, u64::MAX as nat) is Some;
            let n = parsed(raw->0, 10, u64::MAX as nat)->0;
            &&& low <= set <= high
            &&& !read ==> set == usual
            &&& read && low <= n <= high ==> set as nat == n
            &&& read && n < low ==> set == low
            &&& read && n > high ==> set == high
        }),
{
}

} // verus!
