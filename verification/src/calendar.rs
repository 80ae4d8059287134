//! Points in time as ISO 8601 text.

use vstd::prelude::*;

use crate::digits::{decimal, digit, padded, push_decimal_padded, written};
use crate::text::{first_difference_decides, text_le};

verus! {

/// A year with a 29th of February.
pub open spec fn leap(y: int) -> bool {
    y % 4 == 0 && (y % 100 != 0 || y % 400 == 0)
}

/// How many days a month has.
pub open spec fn month_length(y: int, m: int) -> int {
    if m == 2 {
        if leap(y) {
            29
        } else {
            28
        }
    } else if m == 4 || m == 6 || m == 9 || m == 11 {
        30
    } else {
        31
    }
}

/// A day of the calendar.
pub open spec fn valid_date(y: int, m: int, d: int) -> bool {
    0 <= y && 1 <= m <= 12 && 1 <= d <= month_length(y, m)
}

/// How many days the years from 0 up to `y` have.
pub open spec fn days_before_year(y: int) -> int
    decreases y,
{
    if y <= 0 {
        0
    } else {
        days_before_year(y - 1) + if leap(y - 1) {
            366int
        } else {
            365
        }
    }
}

/// How many days of a year come before a month.
pub open spec fn days_before_month(y: int, m: int) -> int
    decreases m,
{
    if m <= 1 {
        0
    } else {
        days_before_month(y, m - 1) + month_length(y, m - 1)
    }
}

/// How many days a date comes after the first of January 1970.
pub open spec fn day_number(y: int, m: int, d: int) -> int {
    days_before_year(y) + days_before_month(y, m) + d - 1 - 719528
}

/// The text of a date and a time of day.
pub open spec fn iso_text(y: nat, m: nat, d: nat, ms_of_day: nat) -> Seq<char> {
    padded(decimal(y), 4) + "-"@ + padded(decimal(m), 2) + "-"@ + padded(decimal(d), 2) + "T"@
        + padded(decimal(ms_of_day / 3_600_000), 2) + ":"@ + padded(
        decimal(ms_of_day / 60_000 % 60),
        2,
    ) + ":"@ + padded(decimal(ms_of_day / 1000 % 60), 2) + "."@ + padded(
        decimal(ms_of_day % 1000),
        3,
    ) + "Z"@
}

/// A text names the point in time that lies some milliseconds after the
/// beginning of 1970.
pub open spec fn names_instant(text: Seq<char>, ms: int) -> bool {
    exists|y: nat, m: nat, d: nat|
        valid_date(y as int, m as int, d as int) && day_number(y as int, m as int, d as int) == ms
            / 86_400_000 && text == #[trigger] iso_text(y, m, d, (ms % 86_400_000) as nat)
}

/// The text that names the point in time that lies some milliseconds after the
/// beginning of 1970.
pub open spec fn iso_of(ms: int) -> Seq<char> {
    choose|text: Seq<char>| names_instant(text, ms)
}

proof fn lemma_round_up(x: int)
    ensures
        (x + 4) / 4 - (x + 3) / 4 == if x % 4 == 0 {
            1int
        } else {
            0
        },
        (x + 100) / 100 - (x + 99) / 100 == if x % 100 == 0 {
            1int
        } else {
            0
        },
        (x + 400) / 400 - (x + 399) / 400 == if x % 400 == 0 {
            1int
        } else {
            0
        },
        x % 400 == 0 ==> x % 100 == 0,
        x % 100 == 0 ==> x % 4 == 0,
{
}

#[verifier::spinoff_prover]
proof fn lemma_days_before_year(y: int)
    requires
        y >= 0,
    ensures
        days_before_year(y) == 365 * y + (y + 3) / 4 - (y + 99) / 100 + (y + 399) / 400,
    decreases y,
{
    if y > 0 {
        lemma_days_before_year(y - 1);
        lemma_round_up(y - 1);
    }
}

proof fn lemma_days_before_month(y: int, m: int)
    requires
        1 <= m <= 12,
    ensures
        days_before_month(y, m) == if m == 1 {
            0
        } else if m == 2 {
            31
        } else {
            (153 * (m - 3) + 2) / 5 + 59 + if leap(y) {
                1int
            } else {
                0
            }
        },
{
    reveal_with_fuel(days_before_month, 13);
}

/// The year of an era of 400 years, counted from March, that a day falls into.
proof fn lemma_year_of_era(doe: int, yoe: int)
    requires
        0 <= doe < 146097,
        yoe == (doe - doe / 1460 + doe / 36524 - doe / 146096) / 365,
    ensures
        0 <= yoe < 400,
        365 * yoe + yoe / 4 - yoe / 100 <= doe,
        doe - (365 * yoe + yoe / 4 - yoe / 100) <= if (yoe + 1) % 4 == 0 && ((yoe + 1) % 100 != 0
            || yoe == 399) {
            365int
        } else {
            364
        },
{
}

/// The days before the year that follows year `yoe` of an era, in closed form.
#[verifier::spinoff_prover]
proof fn lemma_era_start(era: int, yoe: int)
    requires
        era >= 0,
        0 <= yoe < 400,
    ensures
        days_before_year(yoe + era * 400 + 1) == 146097 * era + 365 * yoe + yoe / 4 - yoe / 100 + 366,
        leap(yoe + era * 400 + 1) == ((yoe + 1) % 4 == 0 && ((yoe + 1) % 100 != 0 || yoe == 399)),
{
    let y = yoe + era * 400;
    lemma_days_before_year(y + 1);
    assert((y + 4) / 4 == era * 100 + yoe / 4 + 1);
    assert((y + 100) / 100 == era * 4 + yoe / 100 + 1);
    assert((y + 400) / 400 == era + 1);
    assert((y + 1) % 4 == (yoe + 1) % 4);
    assert((y + 1) % 100 == (yoe + 1) % 100);
    assert((y + 1) % 400 == (yoe + 1) % 400);
}

/// The month, counted from March, and the day that a day of a year falls into.
proof fn lemma_month_of_year(doy: int, mp: int, d: int)
    requires
        0 <= doy <= 365,
        mp == (5 * doy + 2) / 153,
        d == doy - (153 * mp + 2) / 5 + 1,
    ensures
        0 <= mp <= 11,
        1 <= d <= 31,
        mp == 1 || mp == 3 || mp == 6 || mp == 8 ==> d <= 30,
        mp == 11 ==> d == doy - 336,
        mp == 10 ==> d == doy - 305,
{
}

proof fn lemma_civil(era: int, doe: int, yoe: int, doy: int, mp: int, d: int)
    requires
        era >= 0,
        0 <= doe < 146097,
        yoe == (doe - doe / 1460 + doe / 36524 - doe / 146096) / 365,
        doy == doe - (365 * yoe + yoe / 4 - yoe / 100),
        mp == (5 * doy + 2) / 153,
        d == doy - (153 * mp + 2) / 5 + 1,
    ensures
        ({
            let y = yoe + era * 400;
            let month = if mp < 10 {
                mp + 3
            } else {
                mp - 9
            };
            let year = if month <= 2 {
                y + 1
            } else {
                y
            };
            &&& valid_date(year, month, d)
            &&& day_number(year, month, d) == 146097 * era + doe - 719468
        }),
{
    let y = yoe + era * 400;
    lemma_year_of_era(doe, yoe);
    lemma_month_of_year(doy, mp, d);
    lemma_era_start(era, yoe);
    if mp < 10 {
        lemma_days_before_month(y, mp + 3);
        assert(days_before_year(y + 1) == days_before_year(y) + 365 + if leap(y) { 1int } else { 0 });
    } else {
        lemma_days_before_month(y + 1, mp - 9);
    }
}

/// The point in time that lies some milliseconds after the beginning of 1970,
/// as ISO 8601 text in UTC with milliseconds.
pub fn ms_to_iso(ms: u64) -> (r: String)
    ensures
        names_instant(r@, ms as int),
        r@ == iso_of(ms as int),
{
    let total_secs: u64 = ms / 1000;
    let millis: u64 = ms % 1000;
    let time_of_day: u64 = total_secs % 86400;
    let days: u64 = total_secs / 86400;
    let hh: u64 = time_of_day / 3600;
    let mm: u64 = (time_of_day % 3600) / 60;
    let ss: u64 = time_of_day % 60;
    let z: u64 = days + 719468;
    let era: u64 = z / 146097;
    let doe: u64 = z % 146097;
    let yoe: u64 = (doe - doe / 1460 + doe / 36524 - doe / 146096) / 365;
    proof {
        lemma_year_of_era(doe as int, yoe as int);
    }
    let y: u64 = yoe + era * 400;
    let doy: u64 = doe - (365 * yoe + yoe / 4 - yoe / 100);
    let mp: u64 = (5 * doy + 2) / 153;
    let d: u64 = doy - (153 * mp + 2) / 5 + 1;
    let month: u64 = if mp < 10 {
        mp + 3
    } else {
        mp - 9
    };
    let year: u64 = if month <= 2 {
        y + 1
    } else {
        y
    };
    proof {
        lemma_civil(era as int, doe as int, yoe as int, doy as int, mp as int, d as int);
        assert(z == 146097 * era + doe);
    }
    let r = write_instant(year, month, d, hh, mm, ss, millis);
    proof {
        lemma_time_of_day(ms as int);
        assert(names_instant(r@, ms as int)) by {
            assert(r@ == iso_text(year as nat, month as nat, d as nat, (ms as int % 86_400_000) as nat));
        }
        instants_have_one_name(r@, iso_of(ms as int), ms as int);
    }
    r
}

proof fn lemma_time_of_day(ms: int)
    requires
        ms >= 0,
    ensures
        ({
            let in_day = ms % 86_400_000;
            &&& ms / 1000 % 86400 / 3600 == in_day / 3_600_000
            &&& ms / 1000 % 86400 % 3600 / 60 == in_day / 60_000 % 60
            &&& ms / 1000 % 86400 % 60 == in_day / 1000 % 60
            &&& ms % 1000 == in_day % 1000
            &&& ms / 1000 / 86400 == ms / 86_400_000
        }),
{
    let in_day = ms % 86_400_000;
    assert(ms / 1000 % 86400 == in_day / 1000);
    let s = in_day / 1000;
    assert(s / 3600 == in_day / 3_600_000);
    assert(s / 60 == in_day / 60_000);
    assert(s % 3600 / 60 == s / 60 % 60);
}

fn write_instant(year: u64, month: u64, d: u64, hh: u64, mm: u64, ss: u64, millis: u64) -> (r: String)
    ensures
        r@ == padded(decimal(year as nat), 4) + "-"@ + padded(decimal(month as nat), 2) + "-"@
            + padded(decimal(d as nat), 2) + "T"@ + padded(decimal(hh as nat), 2) + ":"@ + padded(
            decimal(mm as nat),
            2,
        ) + ":"@ + padded(decimal(ss as nat), 2) + "."@ + padded(decimal(millis as nat), 3) + "Z"@,
{
    let mut out = String::new();
    push_decimal_padded(&mut out, year, 4);
    assert(out@ =~= padded(decimal(year as nat), 4));
    out.push_str("-");
    push_decimal_padded(&mut out, month, 2);
    out.push_str("-");
    push_decimal_padded(&mut out, d, 2);
    out.push_str("T");
    push_decimal_padded(&mut out, hh, 2);
    out.push_str(":");
    push_decimal_padded(&mut out, mm, 2);
    out.push_str(":");
    push_decimal_padded(&mut out, ss, 2);
    out.push_str(".");
    push_decimal_padded(&mut out, millis, 3);
    out.push_str("Z");
    out
}

proof fn lemma_years_apart(a: int, b: int)
    requires
        0 <= a < b,
    ensures
        days_before_year(a) + 365 + (if leap(a) {
            1int
        } else {
            0
        }) <= days_before_year(b),
    decreases b,
{
    if a < b - 1 {
        lemma_years_apart(a, b - 1);
    }
}

proof fn lemma_months_apart(y: int, a: int, b: int)
    requires
        1 <= a < b <= 13,
    ensures
        days_before_month(y, a) + month_length(y, a) <= days_before_month(y, b),
    decreases b,
{
    if a < b - 1 {
        lemma_months_apart(y, a, b - 1);
    }
}

proof fn lemma_date_in_year(y: int, m: int, d: int)
    requires
        valid_date(y, m, d),
    ensures
        0 <= days_before_month(y, m) + d - 1 < 365 + if leap(y) {
            1int
        } else {
            0
        },
{
    lemma_months_apart(y, m, 13);
    assert(days_before_month(y, 13) == 365 + if leap(y) { 1int } else { 0 }) by {
        reveal_with_fuel(days_before_month, 14);
    }
    if m > 1 {
        lemma_months_apart(y, 1, m);
    }
}

/// No two dates are the same day, so that a point in time has one date.
pub proof fn days_have_one_date(y1: int, m1: int, d1: int, y2: int, m2: int, d2: int)
    requires
        valid_date(y1, m1, d1),
        valid_date(y2, m2, d2),
        day_number(y1, m1, d1) == day_number(y2, m2, d2),
    ensures
        y1 == y2 && m1 == m2 && d1 == d2,
{
    lemma_date_in_year(y1, m1, d1);
    lemma_date_in_year(y2, m2, d2);
    if y1 < y2 {
        lemma_years_apart(y1, y2);
    } else if y2 < y1 {
        lemma_years_apart(y2, y1);
    } else if m1 < m2 {
        lemma_months_apart(y1, m1, m2);
    } else if m2 < m1 {
        lemma_months_apart(y1, m2, m1);
    }
}


/// A point in time has one name.
pub proof fn instants_have_one_name(a: Seq<char>, b: Seq<char>, ms: int)
    requires
        names_instant(a, ms),
        names_instant(b, ms),
    ensures
        a == b,
{
    let (y1, m1, d1) = choose|y: nat, m: nat, d: nat|
        valid_date(y as int, m as int, d as int) && day_number(y as int, m as int, d as int) == ms
            / 86_400_000 && a == #[trigger] iso_text(y, m, d, (ms % 86_400_000) as nat);
    let (y2, m2, d2) = choose|y: nat, m: nat, d: nat|
        valid_date(y as int, m as int, d as int) && day_number(y as int, m as int, d as int) == ms
            / 86_400_000 && b == #[trigger] iso_text(y, m, d, (ms % 86_400_000) as nat);
    days_have_one_date(y1 as int, m1 as int, d1 as int, y2 as int, m2 as int, d2 as int);
}

/// A number of up to four digits, filled up to a width that it fits into.
proof fn lemma_field(x: nat, width: nat)
    requires
        width == 2 ==> x < 100,
        width == 3 ==> x < 1000,
        width == 4 ==> x < 10000,
        2 <= width <= 4,
    ensures
        width == 2 ==> padded(decimal(x), width) == seq![digit(x / 10), digit(x % 10)],
        width == 3 ==> padded(decimal(x), width) == seq![
            digit(x / 100),
            digit(x / 10 % 10),
            digit(x % 10),
        ],
        width == 4 ==> padded(decimal(x), width) == seq![
            digit(x / 1000),
            digit(x / 100 % 10),
            digit(x / 10 % 10),
            digit(x % 10),
        ],
{
    reveal_with_fuel(written, 5);
    assert(digit(0) == '0');
    let s = padded(decimal(x), width);
    if width == 2 {
        assert(s =~= seq![digit(x / 10), digit(x % 10)]);
    } else if width == 3 {
        assert(x / 10 / 10 == x / 100);
        assert(s =~= seq![digit(x / 100), digit(x / 10 % 10), digit(x % 10)]);
    } else {
        assert(x / 10 / 10 == x / 100);
        assert(x / 10 / 10 / 10 == x / 1000);
        assert(s =~= seq![
            digit(x / 1000),
            digit(x / 100 % 10),
            digit(x / 10 % 10),
            digit(x % 10),
        ]);
    }
}

proof fn lemma_digit_order(a: nat, b: nat)
    requires
        a < b < 10,
    ensures
        (digit(a) as int) < (digit(b) as int),
{
}

/// The first of four digits in which two numbers differ.
proof fn lemma_places(x: nat, y: nat) -> (k: int)
    requires
        x < y < 10000,
    ensures
        0 <= k < 4,
        k == 0 ==> x / 1000 < y / 1000,
        k > 0 ==> x / 1000 == y / 1000,
        k == 1 ==> x / 100 % 10 < y / 100 % 10,
        k > 1 ==> x / 100 == y / 100,
        k == 2 ==> x / 10 % 10 < y / 10 % 10,
        k > 2 ==> x / 10 == y / 10,
        k == 3 ==> x % 10 < y % 10,
{
    let (a, b) = (x / 10, y / 10);
    let (c, d) = (x / 100, y / 100);
    assert(a / 10 == c && b / 10 == d);
    assert(c / 10 == x / 1000 && d / 10 == y / 1000);
    if c / 10 < d / 10 {
        0
    } else if c < d {
        1
    } else if a < b {
        2
    } else {
        3
    }
}

/// Two texts agree up to a place and have a smaller character there in the
/// first.
spec fn differ_at(a: Seq<char>, b: Seq<char>, k: int) -> bool {
    &&& 0 <= k < a.len()
    &&& k < b.len()
    &&& forall|i: int| 0 <= i < k ==> #[trigger] a[i] == b[i]
    &&& (a[k] as int) < (b[k] as int)
}

/// Numbers of a width are ordered as their texts are.
#[verifier::spinoff_prover]
proof fn lemma_field_order(x: nat, y: nat, width: nat) -> (k: int)
    requires
        x < y,
        width == 2 ==> y < 100,
        width == 3 ==> y < 1000,
        width == 4 ==> y < 10000,
        2 <= width <= 4,
    ensures
        k < width,
        padded(decimal(x), width).len() == width,
        padded(decimal(y), width).len() == width,
        differ_at(padded(decimal(x), width), padded(decimal(y), width), k),
{
    lemma_field(x, width);
    lemma_field(y, width);
    let a = padded(decimal(x), width);
    let b = padded(decimal(y), width);
    let k = lemma_places(x, y);
    if k == 0 {
        lemma_digit_order(x / 1000, y / 1000);
    } else if k == 1 {
        lemma_digit_order(x / 100 % 10, y / 100 % 10);
    } else if k == 2 {
        lemma_digit_order(x / 10 % 10, y / 10 % 10);
    } else {
        lemma_digit_order(x % 10, y % 10);
    }
    if width == 4 {
        assert(differ_at(a, b, k));
    } else if width == 3 {
        assert(x / 1000 == 0 && y / 1000 == 0);
        assert(x / 100 % 10 == x / 100 && y / 100 % 10 == y / 100);
        assert(differ_at(a, b, k - 1));
    } else {
        assert(x / 100 == 0 && y / 100 == 0 && x / 1000 == 0 && y / 1000 == 0);
        assert(x / 10 % 10 == x / 10 && y / 10 % 10 == y / 10);
        assert(differ_at(a, b, k - 2));
    }
    k - (4 - width)
}

proof fn lemma_field_digits(x: nat, width: nat)
    requires
        width == 2 ==> x < 100,
        width == 3 ==> x < 1000,
        width == 4 ==> x < 10000,
        2 <= width <= 4,
    ensures
        padded(decimal(x), width).len() == width,
        forall|i: int| 0 <= i < width ==> '0' <= #[trigger] padded(decimal(x), width)[i] <= '9',
{
    lemma_field(x, width);
}

/// A text stands in another from some place on.
spec fn stands_at(s: Seq<char>, part: Seq<char>, at: int) -> bool {
    &&& 0 <= at
    &&& at + part.len() <= s.len()
    &&& forall|i: int| at <= i < at + part.len() ==> #[trigger] s[i] == part[i - at]
}

/// Where each part of a text stands.
spec fn has_parts(s: Seq<char>, y: nat, m: nat, d: nat, t: nat) -> bool {
    &&& s.len() == 24
    &&& stands_at(s, padded(decimal(y), 4), 0)
    &&& stands_at(s, padded(decimal(m), 2), 5)
    &&& stands_at(s, padded(decimal(d), 2), 8)
    &&& stands_at(s, padded(decimal(t / 3_600_000), 2), 11)
    &&& stands_at(s, padded(decimal(t / 60_000 % 60), 2), 14)
    &&& stands_at(s, padded(decimal(t / 1000 % 60), 2), 17)
    &&& stands_at(s, padded(decimal(t % 1000), 3), 20)
    &&& s[4] == '-' && s[7] == '-' && s[10] == 'T' && s[13] == ':' && s[16] == ':'
    &&& s[19] == '.' && s[23] == 'Z'
}

#[verifier::spinoff_prover]
proof fn lemma_parts(y: nat, m: nat, d: nat, t: nat)
    requires
        y < 10000,
        m < 100,
        d < 100,
        t < 86_400_000,
    ensures
        has_parts(iso_text(y, m, d, t), y, m, d, t),
{
    reveal_strlit("-");
    reveal_strlit("T");
    reveal_strlit(":");
    reveal_strlit(".");
    reveal_strlit("Z");
    lemma_field_digits(y, 4);
    lemma_field_digits(m, 2);
    lemma_field_digits(d, 2);
    lemma_field_digits(t / 3_600_000, 2);
    lemma_field_digits(t / 60_000 % 60, 2);
    lemma_field_digits(t / 1000 % 60, 2);
    lemma_field_digits(t % 1000, 3);
}

/// Later days have greater dates.
proof fn lemma_dates_ascend(y1: int, m1: int, d1: int, y2: int, m2: int, d2: int)
    requires
        valid_date(y1, m1, d1),
        valid_date(y2, m2, d2),
        day_number(y1, m1, d1) < day_number(y2, m2, d2),
    ensures
        y1 < y2 || (y1 == y2 && (m1 < m2 || (m1 == m2 && d1 < d2))),
{
    lemma_date_in_year(y1, m1, d1);
    lemma_date_in_year(y2, m2, d2);
    if y2 < y1 {
        lemma_years_apart(y2, y1);
    } else if y1 == y2 && m2 < m1 {
        lemma_months_apart(y1, m2, m1);
    }
}

proof fn lemma_year_fits(y: int, m: int, d: int)
    requires
        valid_date(y, m, d),
        day_number(y, m, d) <= 2_932_896,
    ensures
        y <= 9999,
{
    lemma_date_in_year(y, m, d);
    if y >= 10000 {
        lemma_days_before_year(10000);
        if y > 10000 {
            lemma_years_apart(10000, y);
        }
    }
}

/// What a name of an instant up to the end of year 9999 looks like:
/// `YYYY-MM-DDTHH:MM:SS.mmmZ`.
pub open spec fn instant_shaped(s: Seq<char>) -> bool {
    &&& s.len() == 24
    &&& s[4] == '-' && s[7] == '-' && s[10] == 'T' && s[13] == ':' && s[16] == ':'
    &&& s[19] == '.' && s[23] == 'Z'
    &&& forall|i: int|
        0 <= i < 24 && i != 4 && i != 7 && i != 10 && i != 13 && i != 16 && i != 19 && i != 23
            ==> '0' <= #[trigger] s[i] <= '9'
}

#[verifier::spinoff_prover]
proof fn lemma_shaped(s: Seq<char>, y: nat, m: nat, d: nat, t: nat)
    requires
        y < 10000,
        m < 100,
        d < 100,
        t < 86_400_000,
        has_parts(s, y, m, d, t),
    ensures
        instant_shaped(s),
{
    lemma_field_digits(y, 4);
    lemma_field_digits(m, 2);
    lemma_field_digits(d, 2);
    lemma_field_digits(t / 3_600_000, 2);
    lemma_field_digits(t / 60_000 % 60, 2);
    lemma_field_digits(t / 1000 % 60, 2);
    lemma_field_digits(t % 1000, 3);
}

/// Where two texts agree up to a part and the part differs, it decides.
proof fn lemma_part_decides(
    a: Seq<char>,
    b: Seq<char>,
    at: int,
    x: Seq<char>,
    y: Seq<char>,
    k: int,
)
    requires
        stands_at(a, x, at),
        stands_at(b, y, at),
        differ_at(x, y, k),
        forall|i: int| 0 <= i < at ==> #[trigger] a[i] == b[i],
    ensures
        text_le(a, b),
        a != b,
{
    assert forall|i: int| 0 <= i < at + k implies #[trigger] a[i] == b[i] by {
        if i >= at {
            assert(a[i] == x[i - at]);
            assert(b[i] == y[i - at]);
            assert(x[i - at] == y[i - at]);
        }
    }
    assert(a[at + k] == x[k]);
    assert(b[at + k] == y[k]);
    first_difference_decides(a, b, at + k);
}

/// The days of two instants are one day, and the first comes earlier in it.
#[verifier::spinoff_prover]
proof fn lemma_times_ascend(a: Seq<char>, b: Seq<char>, y: nat, m: nat, d: nat, t: nat, u: nat)
    requires
        y < 10000 && m < 100 && d < 100,
        t < u < 86_400_000,
        has_parts(a, y, m, d, t),
        has_parts(b, y, m, d, u),
    ensures
        text_le(a, b),
        a != b,
{
    lemma_field_digits(y, 4);
    lemma_field_digits(m, 2);
    lemma_field_digits(d, 2);
    let (h1, h2) = (t / 3_600_000, u / 3_600_000);
    let (i1, i2) = (t / 60_000 % 60, u / 60_000 % 60);
    let (s1, s2) = (t / 1000 % 60, u / 1000 % 60);
    lemma_times_order(t, u);
    lemma_field_digits(h1, 2);
    lemma_field_digits(i1, 2);
    lemma_field_digits(s1, 2);
    if h1 < h2 {
        let k = lemma_field_order(h1, h2, 2);
        lemma_part_decides(a, b, 11, padded(decimal(h1), 2), padded(decimal(h2), 2), k);
    } else if i1 < i2 {
        let k = lemma_field_order(i1, i2, 2);
        lemma_part_decides(a, b, 14, padded(decimal(i1), 2), padded(decimal(i2), 2), k);
    } else if s1 < s2 {
        let k = lemma_field_order(s1, s2, 2);
        lemma_part_decides(a, b, 17, padded(decimal(s1), 2), padded(decimal(s2), 2), k);
    } else {
        let k = lemma_field_order(t % 1000, u % 1000, 3);
        lemma_part_decides(
            a,
            b,
            20,
            padded(decimal(t % 1000), 3),
            padded(decimal(u % 1000), 3),
            k,
        );
    }
}

proof fn lemma_times_order(t: nat, u: nat)
    requires
        t < u,
    ensures
        ({
            let (h1, h2) = (t / 3_600_000, u / 3_600_000);
            let (i1, i2) = (t / 60_000 % 60, u / 60_000 % 60);
            let (s1, s2) = (t / 1000 % 60, u / 1000 % 60);
            h1 < h2 || (h1 == h2 && (i1 < i2 || (i1 == i2 && (s1 < s2 || (s1 == s2 && t % 1000 < u
                % 1000)))))
        }),
{
    assert(t / 60_000 / 60 == t / 3_600_000);
    assert(u / 60_000 / 60 == u / 3_600_000);
    assert(t / 1000 / 60 == t / 60_000);
    assert(u / 1000 / 60 == u / 60_000);
}

/// The day of the first of two instants comes earlier.
#[verifier::spinoff_prover]
proof fn lemma_days_ascend(
    a: Seq<char>,
    b: Seq<char>,
    y1: nat,
    m1: nat,
    d1: nat,
    t: nat,
    y2: nat,
    m2: nat,
    d2: nat,
    u: nat,
)
    requires
        y1 < 10000 && m1 < 100 && d1 < 100,
        y2 < 10000 && m2 < 100 && d2 < 100,
        has_parts(a, y1, m1, d1, t),
        has_parts(b, y2, m2, d2, u),
        y1 < y2 || (y1 == y2 && (m1 < m2 || (m1 == m2 && d1 < d2))),
    ensures
        text_le(a, b),
        a != b,
{
    lemma_field_digits(y1, 4);
    lemma_field_digits(m1, 2);
    if y1 < y2 {
        let k = lemma_field_order(y1, y2, 4);
        lemma_part_decides(a, b, 0, padded(decimal(y1), 4), padded(decimal(y2), 4), k);
    } else if m1 < m2 {
        let k = lemma_field_order(m1, m2, 2);
        lemma_part_decides(a, b, 5, padded(decimal(m1), 2), padded(decimal(m2), 2), k);
    } else {
        let k = lemma_field_order(d1, d2, 2);
        lemma_part_decides(a, b, 8, padded(decimal(d1), 2), padded(decimal(d2), 2), k);
    }
}

/// Up to the end of year 9999 the names of instants all have one shape, and
/// their order as texts is that of the instants: no two share a name.
pub proof fn names_ascend_with_time(a: Seq<char>, b: Seq<char>, from: int, to: int)
    requires
        0 <= from < to <= 253_402_300_799_999,
        names_instant(a, from),
        names_instant(b, to),
    ensures
        instant_shaped(a),
        instant_shaped(b),
        text_le(a, b),
        a != b,
{
    let (y1, m1, d1) = choose|y: nat, m: nat, d: nat|
        valid_date(y as int, m as int, d as int) && day_number(y as int, m as int, d as int) == from
            / 86_400_000 && a == #[trigger] iso_text(y, m, d, (from % 86_400_000) as nat);
    let (y2, m2, d2) = choose|y: nat, m: nat, d: nat|
        valid_date(y as int, m as int, d as int) && day_number(y as int, m as int, d as int) == to
            / 86_400_000 && b == #[trigger] iso_text(y, m, d, (to % 86_400_000) as nat);
    let t1 = (from % 86_400_000) as nat;
    let t2 = (to % 86_400_000) as nat;
    lemma_year_fits(y1 as int, m1 as int, d1 as int);
    lemma_year_fits(y2 as int, m2 as int, d2 as int);
    lemma_parts(y1, m1, d1, t1);
    lemma_parts(y2, m2, d2, t2);
    lemma_shaped(a, y1, m1, d1, t1);
    lemma_shaped(b, y2, m2, d2, t2);
    if from / 86_400_000 == to / 86_400_000 {
        days_have_one_date(y1 as int, m1 as int, d1 as int, y2 as int, m2 as int, d2 as int);
        lemma_times_ascend(a, b, y1, m1, d1, t1, t2);
    } else {
        lemma_dates_ascend(y1 as int, m1 as int, d1 as int, y2 as int, m2 as int, d2 as int);
        lemma_days_ascend(a, b, y1, m1, d1, t1, y2, m2, d2, t2);
    }
}

/// The first of January 1970 is day zero, and each day is followed by the next:
/// within its month, into the next month, or into the next year.
pub proof fn days_follow_each_other(y: int, m: int, d: int)
    requires
        valid_date(y, m, d),
    ensures
        day_number(1970, 1, 1) == 0,
        d < month_length(y, m) ==> day_number(y, m, d + 1) == day_number(y, m, d) + 1,
        d == month_length(y, m) && m < 12 ==> day_number(y, m + 1, 1) == day_number(y, m, d) + 1,
        d == month_length(y, m) && m == 12 ==> day_number(y + 1, 1, 1) == day_number(y, m, d) + 1,
{
    lemma_days_before_year(1970);
    lemma_days_before_month(y, m);
    lemma_days_before_month(y, 12);
}

/// February has twenty-nine days every fourth year, but for the centuries, of
/// which every fourth one has them; the other months have their own lengths.
pub proof fn months_have_their_lengths(y: int)
    ensures
        month_length(y, 2) == 29 <==> y % 400 == 0 || y % 4 == 0 && y % 100 != 0,
        month_length(y, 2) == 29 || month_length(y, 2) == 28,
        month_length(y, 1) == 31 && month_length(y, 3) == 31 && month_length(y, 5) == 31
            && month_length(y, 7) == 31 && month_length(y, 8) == 31 && month_length(y, 10) == 31
            && month_length(y, 12) == 31,
        month_length(y, 4) == 30 && month_length(y, 6) == 30 && month_length(y, 9) == 30
            && month_length(y, 11) == 30,
{
}

} // verus!
