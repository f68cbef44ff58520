//! Julian day numbers of civil dates. A day number counts days, its day
//! starting at noon; day 0 is -4712-01-01 of the proleptic Julian calendar.
//! Dates up to 1582-10-04 are Julian, dates from 1582-10-15 on are Gregorian.
use vstd::prelude::*;

verus! {

/// Floor division by a positive divisor (`a / b` on `int` is floor division
/// when `b > 0`).
fn floor_div(a: i64, b: i64) -> (r: i64)
    requires
        0 < b <= 1_000_000,
        -1_000_000_000_000 <= a <= 1_000_000_000_000,
    ensures
        r == a / b,
{
    if a >= 0 {
        a / b
    } else {
        let n: i64 = -a;
        let q: i64 = (n + b - 1) / b;
        assert(-q == a / b) by (nonlinear_arith)
            requires
                n == -a,
                a < 0,
                b > 0,
                q as int == (n as int + b as int - 1) / (b as int),
        ;
        -q
    }
}

/// Earliest year whose dates `jd2day` returns.
pub const MIN_YEAR: i32 = -4712;

/// Latest year whose dates `jd2day` returns.
pub const MAX_YEAR: i32 = 100_000;

/// `y * 372 + m * 31 + d` at or above this value selects the Gregorian rule
/// (the key of 1582-10-15).
pub const GREGORIAN_KEY: i32 = 588829;

/// Whether the date falls on or after the Gregorian cutover.
pub open spec fn is_gregorian(y: int, m: int, d: int) -> bool {
    y * 372 + m * 31 + d >= GREGORIAN_KEY
}

/// The day number of `y`-`m`-`d` (taken at noon). January and February count
/// as months 13 and 14 of the year before; after the cutover the century
/// correction `2 - c + c / 4` applies, `c` being that year's century.
pub open spec fn day_number(y: int, m: int, d: int) -> int {
    let yy = if m <= 2 { y - 1 } else { y };
    let mm = if m <= 2 { m + 12 } else { m };
    let c = yy / 100;
    let b = if is_gregorian(y, m, d) { 2 - c + c / 4 } else { 0 };
    (1461 * (yy + 4716)) / 4 + (306001 * (mm + 1)) / 10000 + d + b - 1524
}

/// The Julian day number of a civil date. Any integers are accepted, within
/// the bounds that keep the result in an `i32`; a month of 2 or less counts
/// from the end of the previous year.
pub fn from_day(y: i32, m: i32, d: i32) -> (r: i32)
    requires
        -1_000_000 <= y <= 1_000_000,
        -1_000_000 <= m <= 1_000_000,
        -1_000_000 <= d <= 1_000_000,
    ensures
        r == day_number(y as int, m as int, d as int),
        valid_date(y as int, m as int, d as int) ==> day_number(MIN_YEAR as int, 1, 1) <= r < day_number(
            MAX_YEAR + 1,
            1,
            1,
        ),
{
    proof {
        if valid_date(y as int, m as int, d as int) {
            lemma_valid_date_in_range(y as int, m as int, d as int);
        }
    }
    let gregorian: bool = (y as i64) * 372 + (m as i64) * 31 + (d as i64) >= GREGORIAN_KEY as i64;
    let (yy, mm): (i64, i64) = if m <= 2 {
        (y as i64 - 1, m as i64 + 12)
    } else {
        (y as i64, m as i64)
    };
    let b: i64 = if gregorian {
        let c: i64 = floor_div(yy, 100);
        2 - c + floor_div(c, 4)
    } else {
        0
    };
    let r: i64 = floor_div(1461 * (yy + 4716), 4) + floor_div(306001 * (mm + 1), 10000) + d as i64 + b
        - 1524;
    assert(-500_000_000 < r < 500_000_000) by (nonlinear_arith)
        requires
            -1_000_001 <= yy <= 1_000_000,
            -1_000_000 <= mm <= 1_000_012,
            -1_000_000 <= d <= 1_000_000,
            r == (1461 * (yy + 4716)) / 4 + (306001 * (mm + 1)) / 10000 + d + b - 1524,
            -20_000 <= b <= 20_000,
    ;
    r as i32
}

/// Leap years: every fourth year up to 1582, the Gregorian rule after it.
pub open spec fn is_leap_year(y: int) -> bool {
    if y >= 1583 {
        (y % 4 == 0 && y % 100 != 0) || y % 400 == 0
    } else {
        y % 4 == 0
    }
}

/// The number of the last day of month `m` of year `y`.
pub open spec fn days_in_month(y: int, m: int) -> int {
    if m == 2 {
        if is_leap_year(y) {
            29
        } else {
            28
        }
    } else if m == 4 || m == 6 || m == 9 || m == 11 {
        30
    } else {
        31
    }
}

/// Whether the date is the ten days dropped at the cutover, 1582-10-05 to 1582-10-14.
pub open spec fn is_dropped(y: int, m: int, d: int) -> bool {
    y == 1582 && m == 10 && 5 <= d <= 14
}

/// A calendar date of the supported years that exists.
pub open spec fn valid_date(y: int, m: int, d: int) -> bool {
    &&& MIN_YEAR <= y <= MAX_YEAR
    &&& 1 <= m <= 12
    &&& 1 <= d <= days_in_month(y, m)
    &&& !is_dropped(y, m, d)
}

/// How many days month `m` of year `y` holds (21 in October 1582).
pub open spec fn month_span(y: int, m: int) -> int {
    if y == 1582 && m == 10 {
        days_in_month(y, m) - 10
    } else {
        days_in_month(y, m)
    }
}

/// The year and month after `y`-`m`.
pub open spec fn next_month(y: int, m: int) -> (int, int) {
    if m == 12 {
        (y + 1, 1)
    } else {
        (y, m + 1)
    }
}

proof fn lemma_year_term(q: int)
    ensures
        (1461 * q) / 4 == 365 * q + q / 4,
{
    assert((1461 * q) / 4 == 365 * q + q / 4) by (nonlinear_arith);
}

/// The first of the next month comes `month_span(y, m)` days after the first of this one.
proof fn lemma_month_step(y: int, m: int)
    requires
        MIN_YEAR <= y <= MAX_YEAR,
        1 <= m <= 12,
    ensures
        day_number(next_month(y, m).0, next_month(y, m).1, 1) == day_number(y, m, 1) + month_span(y, m),
{
    lemma_year_term(y + 4716);
    lemma_year_term(y + 4715);
    lemma_year_term(y + 4717);
}

/// Days from the first of the month to day `d` of it.
pub open spec fn day_offset(y: int, m: int, d: int) -> int {
    if y == 1582 && m == 10 && d >= 15 {
        d - 11
    } else {
        d - 1
    }
}

/// Within a month, day numbers count on from the first.
proof fn lemma_in_month(y: int, m: int, d: int)
    requires
        valid_date(y, m, d),
    ensures
        day_number(y, m, d) == day_number(y, m, 1) + day_offset(y, m, d),
        0 <= day_offset(y, m, d) < month_span(y, m),
        day_number(y, m, 1) <= day_number(y, m, d) < day_number(
            next_month(y, m).0,
            next_month(y, m).1,
            1,
        ),
{
    lemma_month_step(y, m);
}

/// The day of the month of the `n`-th day (from 0) of month `m` of year
/// `y`: in October 1582 the days after the 4th are the 15th on.
pub open spec fn nth_day(y: int, m: int, n: int) -> int {
    if y == 1582 && m == 10 && n >= 4 {
        n + 11
    } else {
        n + 1
    }
}

/// The `n`-th day of a month is a valid date, `n` days after the first.
pub proof fn lemma_nth_day(y: int, m: int, n: int)
    requires
        valid_date(y, m, 1),
        0 <= n < month_span(y, m),
    ensures
        valid_date(y, m, nth_day(y, m, n)),
        day_number(y, m, nth_day(y, m, n)) == day_number(y, m, 1) + n,
{
    lemma_in_month(y, m, nth_day(y, m, n));
}

/// Month starts do not go back within a year: a later month starts at or
/// after the end of an earlier one.
proof fn lemma_month_order(y: int, m1: int, m2: int)
    requires
        MIN_YEAR <= y <= MAX_YEAR,
        1 <= m1 < m2 <= 12,
    ensures
        day_number(y, m1 + 1, 1) <= day_number(y, m2, 1),
    decreases m2 - m1,
{
    if m1 + 1 < m2 {
        lemma_month_order(y, m1 + 1, m2);
        lemma_month_step(y, m1 + 1);
    }
}

/// Each year starts after the whole of the year before.
proof fn lemma_year_order(y1: int, y2: int)
    requires
        MIN_YEAR <= y1 < y2 <= MAX_YEAR + 1,
    ensures
        day_number(y1 + 1, 1, 1) <= day_number(y2, 1, 1),
        day_number(y1, 12, 1) < day_number(y1 + 1, 1, 1),
        day_number(y1, 1, 1) < day_number(y1 + 1, 1, 1),
    decreases y2 - y1,
{
    lemma_month_order(y1, 1, 12);
    lemma_month_step(y1, 12);
    lemma_month_step(y1, 1);
    if y1 + 1 < y2 {
        lemma_year_order(y1 + 1, y2);
    }
}

/// A valid date lies within its month and within its year.
proof fn lemma_date_bounds(y: int, m: int, d: int)
    requires
        valid_date(y, m, d),
    ensures
        day_number(y, 1, 1) <= day_number(y, m, 1) <= day_number(y, m, d),
        day_number(y, m, d) < day_number(y + 1, 1, 1),
{
    lemma_in_month(y, m, d);
    if m > 1 {
        lemma_month_order(y, 1, m);
        lemma_month_step(y, 1);
    }
    if m < 12 {
        lemma_month_order(y, m, 12);
    }
    lemma_year_order(y, y + 1);
}

/// The day number of every valid date lies in the range that `jd2day` takes.
pub proof fn lemma_valid_date_in_range(y: int, m: int, d: int)
    requires
        valid_date(y, m, d),
    ensures
        day_number(MIN_YEAR as int, 1, 1) <= day_number(y, m, d) < day_number(MAX_YEAR + 1, 1, 1),
{
    lemma_date_bounds(y, m, d);
    if y > MIN_YEAR {
        lemma_year_order(MIN_YEAR as int, y);
    }
    if y < MAX_YEAR {
        lemma_year_order(y, MAX_YEAR + 1);
    }
}

/// Distinct valid dates have distinct day numbers.
proof fn lemma_day_number_injective(y1: int, m1: int, d1: int, y2: int, m2: int, d2: int)
    requires
        valid_date(y1, m1, d1),
        valid_date(y2, m2, d2),
        day_number(y1, m1, d1) == day_number(y2, m2, d2),
    ensures
        y1 == y2 && m1 == m2 && d1 == d2,
{
    lemma_date_bounds(y1, m1, d1);
    lemma_date_bounds(y2, m2, d2);
    if y1 < y2 {
        lemma_year_order(y1, y2);
    } else if y2 < y1 {
        lemma_year_order(y2, y1);
    } else if m1 < m2 {
        lemma_in_month(y1, m1, d1);
        lemma_month_order(y1, m1, m2);
    } else if m2 < m1 {
        lemma_in_month(y2, m2, d2);
        lemma_month_order(y2, m2, m1);
    } else {
        lemma_in_month(y1, m1, d1);
        lemma_in_month(y2, m2, d2);
    }
}

/// The valid date whose day number is `j`.
pub open spec fn civil_date(j: int) -> (int, int, int) {
    choose|t: (int, int, int)| valid_date(t.0, t.1, t.2) && day_number(t.0, t.1, t.2) == j
}

/// `jd2day` undoes `from_day`: for every valid date of the supported years,
/// the date of its day number is the date itself.
pub proof fn lemma_civil_round_trip(y: int, m: int, d: int)
    requires
        valid_date(y, m, d),
    ensures
        civil_date(day_number(y, m, d)) == (y, m, d),
{
    let j = day_number(y, m, d);
    let w = (y, m, d);
    assert(valid_date(w.0, w.1, w.2) && day_number(w.0, w.1, w.2) == j);
    let t = civil_date(j);
    lemma_day_number_injective(t.0, t.1, t.2, y, m, d);
}

/// The civil date `(year, month, day)` of day number `j`, for the days of
/// years `MIN_YEAR` to `MAX_YEAR`.
pub fn jd2day(j: i32) -> (r: (i32, i32, i32))
    requires
        day_number(MIN_YEAR as int, 1, 1) <= j < day_number(MAX_YEAR + 1, 1, 1),
    ensures
        valid_date(r.0 as int, r.1 as int, r.2 as int),
        day_number(r.0 as int, r.1 as int, r.2 as int) == j,
        (r.0 as int, r.1 as int, r.2 as int) == civil_date(j as int),
{
    // the year: the last one whose first day is not after `j`
    let mut lo: i32 = MIN_YEAR;
    let mut hi: i32 = MAX_YEAR;
    while lo < hi
        invariant
            MIN_YEAR <= lo <= hi <= MAX_YEAR,
            day_number(lo as int, 1, 1) <= j < day_number(hi + 1, 1, 1),
        decreases hi - lo,
    {
        let mid: i32 = lo + (hi - lo + 1) / 2;
        if from_day(mid, 1, 1) <= j {
            lo = mid;
        } else {
            hi = mid - 1;
        }
    }
    let y: i32 = lo;
    // the month: the last one whose first day is not after `j`
    let mut m: i32 = 1;
    while m < 12 && from_day(y, m + 1, 1) <= j
        invariant
            MIN_YEAR <= y <= MAX_YEAR,
            1 <= m <= 12,
            day_number(y as int, m as int, 1) <= j < day_number(y + 1, 1, 1),
        decreases 12 - m,
    {
        m = m + 1;
    }
    proof {
        lemma_month_step(y as int, m as int);
    }
    let first: i32 = from_day(y, m, 1);
    let mut d: i32 = j - first + 1;
    if y == 1582 && m == 10 && d > 4 {
        d = d + 10;
    }
    proof {
        lemma_in_month(y as int, m as int, d as int);
        let w = (y as int, m as int, d as int);
        assert(valid_date(w.0, w.1, w.2) && day_number(w.0, w.1, w.2) == j);
        lemma_day_number_injective(
            civil_date(j as int).0,
            civil_date(j as int).1,
            civil_date(j as int).2,
            y as int,
            m as int,
            d as int,
        );
    }
    (y, m, d)
}

/// The number of days of month `m` of year `y`: the distance between the
/// first of the next month and the first of this one.
pub fn days_of_month(y: i32, m: i32) -> (r: i32)
    requires
        MIN_YEAR <= y <= MAX_YEAR,
        1 <= m <= 12,
    ensures
        r == day_number(next_month(y as int, m as int).0, next_month(y as int, m as int).1, 1)
            - day_number(y as int, m as int, 1),
        r == month_span(y as int, m as int),
{
    let (y1, m1): (i32, i32) = if m == 12 {
        (y + 1, 1)
    } else {
        (y, m + 1)
    };
    proof {
        lemma_month_step(y as int, m as int);
    }
    from_day(y1, m1, 1) - from_day(y, m, 1)
}

/// The day of the week of day number `j`: 0 for Sunday up to 6 for Saturday.
pub fn weekday(j: i32) -> (r: i32)
    requires
        j >= 0,
    ensures
        r == (j + 1) % 7,
        0 <= r < 7,
{
    (j % 7 + 1) % 7
}

} // verus!
