//! One year of the Chinese lunisolar calendar, from a winter solstice to the
//! next: the days of its solar terms and new moons, the leap month, and the
//! names of its months.
//!
//! Instants are Julian day numbers of the civil days (in the calendar's time
//! zone) on which a solar term or a new moon falls. Finding those days is the
//! ephemeris' work; this module turns them into a calendar.
use vstd::prelude::*;
use crate::julian::{day_number, from_day, MIN_YEAR, MAX_YEAR};

verus! {

/// Number of solar terms held, from one winter solstice to the next.
pub const TERMS: usize = 25;

/// Number of new moons held, from the one on or before the first winter
/// solstice onwards.
pub const MOONS: usize = 15;

/// Largest day number accepted for an instant.
pub const MAX_DAY: i32 = 36_000_000;

/// Name of a lunar month. `month` counts from the eleventh month of the
/// previous year: 0 and 1 are that year's eleventh and twelfth months, `k`
/// from 2 to 13 is month `k - 1` of this year, and 14 (reached only in a year
/// without a leap month) is month 1 of the next year. `leap` marks the inserted month,
/// which repeats the name of the month before it.
#[derive(Debug, Copy, Clone, Default, PartialEq, Eq, Structural)]
pub struct MonthCode {
    pub month: i32,
    pub leap: bool,
}

/// Each entry is below the next.
pub open spec fn increasing(s: Seq<i32>) -> bool {
    forall|i: int| 0 <= i < s.len() - 1 ==> #[trigger] s[i] < s[i + 1]
}

/// No month (from one new moon to the next) is longer than 30 days.
pub open spec fn short_months(hs: Seq<i32>) -> bool {
    forall|k: int| 0 <= k < hs.len() - 1 ==> #[trigger] hs[k + 1] - hs[k] <= 30
}

/// Every entry is a day number in range.
pub open spec fn in_day_range(s: Seq<i32>) -> bool {
    forall|i: int| 0 <= i < s.len() ==> 0 <= #[trigger] s[i] <= MAX_DAY
}

/// The first month from `k` on (up to 13) that ends on or before its
/// principal term `zq[2k]`, so holds no principal term.
pub open spec fn first_without_principal(zq: Seq<i32>, hs: Seq<i32>, k: int) -> int
    decreases 13 - k,
{
    if k >= 13 || hs[k + 1] <= zq[2 * k] {
        k
    } else {
        first_without_principal(zq, hs, k + 1)
    }
}

/// The leap month's index: 0 when the thirteenth new moon (`hs[13]`) comes
/// after the closing winter solstice (the year has twelve months), else the
/// first month from month 1 on without a principal term.
pub open spec fn leap_index(zq: Seq<i32>, hs: Seq<i32>) -> int {
    if hs[13] <= zq[24] {
        first_without_principal(zq, hs, 1)
    } else {
        0
    }
}

/// The name of month `k` of a year whose leap month is `leap` (0 for none).
pub open spec fn month_code(leap: int, k: int) -> MonthCode {
    MonthCode {
        month: (if leap > 0 && k >= leap { k - 1 } else { k }) as i32,
        leap: leap > 0 && k == leap,
    }
}

/// The length of month `k`: days from its new moon to the next (0 for the last).
pub open spec fn month_length(hs: Seq<i32>, k: int) -> int {
    if k + 1 < hs.len() {
        hs[k + 1] - hs[k]
    } else {
        0
    }
}

/// Solar-term and new-moon days that can make a calendar year: both
/// sequences increasing, the two terms before the first winter solstice
/// before it, the first month (the eleventh) holding that solstice, the
/// last new moon after the closing solstice, and no month over 30 days.
pub open spec fn instants_ok(pe2: i32, pe1: i32, zq: Seq<i32>, hs: Seq<i32>) -> bool {
    &&& zq.len() == TERMS
    &&& hs.len() == MOONS
    &&& 0 <= pe2 < pe1 < zq[0]
    &&& increasing(zq)
    &&& increasing(hs)
    &&& hs[0] <= zq[0] < hs[1]
    &&& zq[24] < hs[14]
    &&& short_months(hs)
    &&& in_day_range(zq)
    &&& in_day_range(hs)
}

proof fn lemma_first_without_principal(zq: Seq<i32>, hs: Seq<i32>, k: int)
    requires
        1 <= k <= 13,
        zq.len() == TERMS,
        hs.len() == MOONS,
    ensures
        k <= first_without_principal(zq, hs, k) <= 13,
        first_without_principal(zq, hs, k) < 13 ==> hs[first_without_principal(zq, hs, k) + 1]
            <= zq[2 * first_without_principal(zq, hs, k)],
        forall|i: int| k <= i < first_without_principal(zq, hs, k) ==> #[trigger] hs[i + 1] > zq[2 * i],
    decreases 13 - k,
{
    if k < 13 && !(hs[k + 1] <= zq[2 * k]) {
        lemma_first_without_principal(zq, hs, k + 1);
    }
}

/// Whether the entries increase and all lie in the day range.
fn increasing_in_range<const N: usize>(a: &[i32; N]) -> (r: bool)
    ensures
        r <==> increasing(a@) && in_day_range(a@),
{
    let mut i: usize = 0;
    while i < N
        invariant
            a@.len() == N,
            0 <= i <= N,
            forall|j: int| 0 <= j < i ==> 0 <= #[trigger] a@[j] <= MAX_DAY,
            forall|j: int| 0 <= j < i - 1 ==> #[trigger] a@[j] < a@[j + 1],
        decreases N - i,
    {
        if a[i] < 0 || a[i] > MAX_DAY {
            return false;
        }
        if i > 0 && a[i - 1] >= a[i] {
            assert(!increasing(a@)) by {
                assert(a@[i - 1] >= a@[(i - 1) + 1]);
            }
            return false;
        }
        i = i + 1;
    }
    true
}

/// Whether no month of `hs` is longer than 30 days.
fn months_short(hs: &[i32; 15]) -> (r: bool)
    requires
        in_day_range(hs@),
    ensures
        r <==> short_months(hs@),
{
    let mut k: usize = 0;
    while k < 14
        invariant
            0 <= k <= 14,
            in_day_range(hs@),
            forall|i: int| 0 <= i < k ==> #[trigger] hs@[i + 1] - hs@[i] <= 30,
        decreases 14 - k,
    {
        if hs[k + 1] - hs[k] > 30 {
            assert(hs@[k as int + 1] - hs@[k as int] > 30);
            return false;
        }
        k = k + 1;
    }
    true
}

/// One calendar year: the winter solstice of `year - 1` up to that of `year`.
#[derive(Debug, Copy, Clone)]
pub struct YearCalender {
    /// The year whose winter solstice closes the span.
    pub year: i32,
    /// Days of the 25 solar terms, `zq[0]` and `zq[24]` the winter solstices.
    pub zq: [i32; 25],
    /// Days of 15 new moons; `hs[0]` starts the eleventh month.
    pub hs: [i32; 15],
    /// Name of the month that starts at each new moon.
    pub lunar_month: [MonthCode; 15],
    /// Index of the leap month, 0 when the year has none.
    pub lunar_leap: i32,
    /// Day of the solar term before the first winter solstice.
    pub pe1: i32,
    /// Day of the solar term before `pe1`.
    pub pe2: i32,
    /// Length of each month in days (0 for the last).
    pub month_days: [i32; 15],
}

impl YearCalender {
    /// The instants are well ordered and every derived field follows from them.
    pub open spec fn wf(&self) -> bool {
        &&& MIN_YEAR <= self.year <= MAX_YEAR
        &&& instants_ok(self.pe2, self.pe1, self.zq@, self.hs@)
        &&& self.lunar_leap == leap_index(self.zq@, self.hs@)
        &&& forall|k: int| 0 <= k < 15 ==> #[trigger] self.lunar_month[k] == month_code(self.lunar_leap as int, k)
        &&& forall|k: int| 0 <= k < 15 ==> #[trigger] self.month_days[k] == month_length(self.hs@, k)
    }

    /// Builds the calendar of `year` from the days of its solar terms and new
    /// moons: the month lengths, the leap month (the first month without a
    /// principal term, in a year of thirteen months) and the month names.
    /// Returns `None` when the instants cannot make a year (see `instants_ok`).
    pub fn new(year: i32, pe2: i32, pe1: i32, zq: [i32; 25], hs: [i32; 15]) -> (r: Option<YearCalender>)
        requires
            MIN_YEAR <= year <= MAX_YEAR,
        ensures
            r.is_some() <==> instants_ok(pe2, pe1, zq@, hs@),
            r matches Some(c) ==> c.wf() && c.year == year && c.zq == zq && c.hs == hs && c.pe1
                == pe1 && c.pe2 == pe2,
    {
        if !(0 <= pe2 && pe2 < pe1 && pe1 < zq[0] && hs[0] <= zq[0] && zq[0] < hs[1] && zq[24] < hs[14]) {
            return None;
        }
        if !increasing_in_range(&zq) || !increasing_in_range(&hs) || !months_short(&hs) {
            return None;
        }
        let leap: i32 = if hs[13] <= zq[24] {
            let mut i: usize = 1;
            while i < 13 && hs[i + 1] > zq[2 * i]
                invariant
                    1 <= i <= 13,
                    first_without_principal(zq@, hs@, 1) == first_without_principal(zq@, hs@, i as int),
                decreases 13 - i,
            {
                i = i + 1;
            }
            i as i32
        } else {
            0
        };
        let mut lunar_month: [MonthCode; 15] = [MonthCode { month: 0, leap: false }; 15];
        let mut month_days: [i32; 15] = [0; 15];
        let mut k: usize = 0;
        while k < 15
            invariant
                0 <= k <= 15,
                leap == leap_index(zq@, hs@),
                0 <= leap <= 13,
                instants_ok(pe2, pe1, zq@, hs@),
                forall|i: int| 0 <= i < k ==> #[trigger] lunar_month[i] == month_code(leap as int, i),
                forall|i: int| 0 <= i < k ==> #[trigger] month_days[i] == month_length(hs@, i),
            decreases 15 - k,
        {
            let code = MonthCode {
                month: if leap > 0 && k as i32 >= leap {
                    k as i32 - 1
                } else {
                    k as i32
                },
                leap: leap > 0 && k as i32 == leap,
            };
            lunar_month[k] = code;
            let len: i32 = if k + 1 < 15 {
                hs[k + 1] - hs[k]
            } else {
                0
            };
            month_days[k] = len;
            k = k + 1;
        }
        Some(YearCalender { year, zq, hs, lunar_month, lunar_leap: leap, pe1, pe2, month_days })
    }
    /// Year, month (1 to 12), leap flag (1 for the leap month, else 0) and
    /// length of the month that starts at new moon `n`.
    pub open spec fn month_info(&self, n: int) -> (i32, i32, i32, i32) {
        let code = self.lunar_month[n].month;
        let y = if code <= 1 { self.year - 1 } else if code >= 14 { self.year + 1 } else { self.year as int };
        let m = if code == 0 { 11 } else if code == 1 { 12 } else if code >= 14 { code - 13 } else { code - 1 };
        let leap = if self.lunar_month[n].leap { 1int } else { 0int };
        (y as i32, m as i32, leap as i32, self.month_days[n])
    }

    /// The `n`-th month of the calendar: its year, month, leap flag and
    /// number of days (0 for the last, whose end is not held). Months 0 and 1
    /// belong to the previous year; in a year without a leap month the 15th
    /// new moon opens month 1 of the next year.
    pub fn nth_month(&self, n: usize) -> (r: (i32, i32, i32, i32))
        requires
            self.wf(),
            n < MOONS,
        ensures
            r == self.month_info(n as int),
    {
        let code = self.lunar_month[n];
        let y: i32 = if code.month <= 1 {
            self.year - 1
        } else if code.month >= 14 {
            self.year + 1
        } else {
            self.year
        };
        let m: i32 = if code.month == 0 {
            11
        } else if code.month == 1 {
            12
        } else if code.month >= 14 {
            code.month - 13
        } else {
            code.month - 1
        };
        let leap: i32 = if code.leap {
            1
        } else {
            0
        };
        (y, m, leap, self.month_days[n])
    }

    /// Day of the `n`-th term counted from `pe2`: 0 is `pe2`, 1 is `pe1`, and
    /// `n` from 2 on is `zq[n - 2]`.
    pub open spec fn term(&self, n: int) -> i32 {
        if n == 0 {
            self.pe2
        } else if n == 1 {
            self.pe1
        } else {
            self.zq[n - 2]
        }
    }

    /// The calendar that day `d` of month `m` of `cur`'s year belongs to:
    /// `cur`, or `next` once `cur`'s closing winter solstice has passed. The
    /// day lies after `cur`'s first winter solstice and not after `next`'s
    /// closing one.
    pub fn from_date(cur: YearCalender, next: YearCalender, m: i32, d: i32) -> (r: YearCalender)
        requires
            cur.wf(),
            next.wf(),
            follows(cur, next),
            -1_000_000 <= m <= 1_000_000,
            -1_000_000 <= d <= 1_000_000,
            cur.zq[0] < day_number(cur.year as int, m as int, d as int) <= next.zq[24],
        ensures
            r == calendar_for(cur, next, day_number(cur.year as int, m as int, d as int)),
            r.year == (if day_number(cur.year as int, m as int, d as int) > cur.zq[24] {
                cur.year + 1
            } else {
                cur.year as int
            }),
            r.zq[0] < day_number(cur.year as int, m as int, d as int) <= r.zq[24],
    {
        proof {
            reveal(follows);
        }
        let j: i32 = from_day(cur.year, m, d);
        if j > cur.zq[24] {
            next
        } else {
            cur
        }
    }

    /// The number of months of the year: 13 with a leap month, else 12.
    pub open spec fn month_count(&self) -> int {
        if self.lunar_leap > 0 {
            13
        } else {
            12
        }
    }

    /// The year's months and its 24 solar terms from the first winter
    /// solstice on, each exactly once, in the order of their days, a new moon
    /// before a term of the same day.
    pub fn events(&self) -> (r: Vec<CalendarEvent>)
        requires
            self.wf(),
        ensures
            r@.len() == 24 + self.month_count(),
            forall|p: int| 0 <= p < r@.len() ==> event_of_year(self.month_count(), #[trigger] r@[p]),
            forall|k: int| 0 <= k < self.month_count() ==> #[trigger] r@.contains(CalendarEvent::NewMoon(k as usize)),
            forall|i: int| 0 <= i < 24 ==> #[trigger] r@.contains(CalendarEvent::Term(i as usize)),
            forall|p: int, q: int| 0 <= p < q < r@.len() ==> event_before(*self, #[trigger] r@[p], #[trigger] r@[q]),
    {
        let ms: usize = if self.lunar_leap > 0 {
            13
        } else {
            12
        };
        proof {
            lemma_instants_increasing(*self);
        }
        let mut r: Vec<CalendarEvent> = Vec::new();
        let mut i: usize = 0;
        let mut j: usize = 0;
        while i < 24 || j < ms
            invariant
                self.wf(),
                ms == self.month_count(),
                forall|a: int| 0 <= a < 24 ==> #[trigger] self.zq[a] < self.zq[a + 1],
                forall|a: int| 0 <= a < 14 ==> #[trigger] self.hs[a] < self.hs[a + 1],
                i <= 24,
                j <= ms,
                r@.len() == i + j,
                forall|p: int|
                    0 <= p < r@.len() ==> match #[trigger] r@[p] {
                        CalendarEvent::NewMoon(k) => k < j,
                        CalendarEvent::Term(t) => t < i,
                    },
                forall|k: int| 0 <= k < j ==> #[trigger] r@.contains(CalendarEvent::NewMoon(k as usize)),
                forall|t: int| 0 <= t < i ==> #[trigger] r@.contains(CalendarEvent::Term(t as usize)),
                forall|p: int, q: int| 0 <= p < q < r@.len() ==> event_before(*self, #[trigger] r@[p], #[trigger] r@[q]),
                j < ms ==> forall|p: int|
                    0 <= p < r@.len() ==> event_before(*self, #[trigger] r@[p], CalendarEvent::NewMoon(j)),
                i < 24 ==> forall|p: int|
                    0 <= p < r@.len() ==> event_before(*self, #[trigger] r@[p], CalendarEvent::Term(i)),
            decreases (24 - i) + (ms - j),
        {
            let ghost before = r@;
            assert(forall|x: CalendarEvent| #[trigger] before.contains(x) == r@.contains(x));
            if j < ms && (i >= 24 || self.hs[j] <= self.zq[i]) {
                let e = CalendarEvent::NewMoon(j);
                r.push(e);
                proof {
                    assert(r@[before.len() as int] == e);
                    assert forall|k: int| 0 <= k < j + 1 implies #[trigger] r@.contains(CalendarEvent::NewMoon(k as usize)) by {
                        if k < j {
                            assert(before.contains(CalendarEvent::NewMoon(k as usize)));
                            let p = choose|p: int| 0 <= p < before.len() && before[p] == CalendarEvent::NewMoon(k as usize);
                            assert(r@[p] == before[p]);
                        } else {
                            assert(r@[before.len() as int] == CalendarEvent::NewMoon(k as usize));
                        }
                    }
                    assert forall|t: int| 0 <= t < i implies #[trigger] r@.contains(CalendarEvent::Term(t as usize)) by {
                        assert(before.contains(CalendarEvent::Term(t as usize)));
                        let p = choose|p: int| 0 <= p < before.len() && before[p] == CalendarEvent::Term(t as usize);
                        assert(r@[p] == before[p]);
                    }
                }
                j = j + 1;
            } else {
                let e = CalendarEvent::Term(i);
                r.push(e);
                proof {
                    assert(r@[before.len() as int] == e);
                    assert forall|t: int| 0 <= t < i + 1 implies #[trigger] r@.contains(CalendarEvent::Term(t as usize)) by {
                        if t < i {
                            assert(before.contains(CalendarEvent::Term(t as usize)));
                            let p = choose|p: int| 0 <= p < before.len() && before[p] == CalendarEvent::Term(t as usize);
                            assert(r@[p] == before[p]);
                        } else {
                            assert(r@[before.len() as int] == CalendarEvent::Term(t as usize));
                        }
                    }
                    assert forall|k: int| 0 <= k < j implies #[trigger] r@.contains(CalendarEvent::NewMoon(k as usize)) by {
                        assert(before.contains(CalendarEvent::NewMoon(k as usize)));
                        let p = choose|p: int| 0 <= p < before.len() && before[p] == CalendarEvent::NewMoon(k as usize);
                        assert(r@[p] == before[p]);
                    }
                }
                i = i + 1;
            }
        }
        r
    }

    /// The month in which day `j` falls (see `month_at`).
    pub fn month_index(&self, j: i32) -> (r: usize)
        requires
            self.wf(),
            self.hs[0] <= j < self.hs[14],
        ensures
            r < 14,
            self.hs[r as int] <= j < self.hs[r + 1],
            r == month_at(*self, j as int),
    {
        let mut k: usize = 0;
        while k < 13 && self.hs[k + 1] <= j
            invariant
                self.wf(),
                k <= 13,
                self.hs[k as int] <= j < self.hs[14],
            decreases 13 - k,
        {
            k = k + 1;
        }
        proof {
            lemma_month_at(*self, j as int, k as int);
        }
        k
    }

    /// The first term, counted from `pe2`, that falls after day `j`.
    pub fn next_term_index(&self, j: i32) -> (r: usize)
        requires
            self.wf(),
            j < self.term(26),
        ensures
            r <= 26,
            j < self.term(r as int),
            forall|n: int| 0 <= n < r ==> #[trigger] self.term(n) <= j,
    {
        proof {
            lemma_instants_increasing(*self);
        }
        let mut n: usize = 0;
        while self.nth_q24(n) <= j
            invariant
                self.wf(),
                n <= 26,
                j < self.term(26),
                forall|i: int| 0 <= i < n ==> #[trigger] self.term(i) <= j,
                forall|i: int| 0 <= i < 26 ==> #[trigger] self.term(i) < self.term(i + 1),
            decreases 26 - n,
        {
            n = n + 1;
        }
        n
    }

    /// The day of the `n`-th term counted from `pe2` (see `term`).
    pub fn nth_q24(&self, n: usize) -> (r: i32)
        requires
            n < TERMS + 2,
        ensures
            r == self.term(n as int),
    {
        if n == 0 {
            self.pe2
        } else if n == 1 {
            self.pe1
        } else {
            self.zq[n - 2]
        }
    }
}

/// Entries of an increasing sequence are ordered as their positions.
pub proof fn lemma_increasing_pairwise(s: Seq<i32>, i: int, j: int)
    requires
        increasing(s),
        0 <= i < j < s.len(),
    ensures
        s[i] < s[j],
    decreases j - i,
{
    assert(s[j - 1] < s[(j - 1) + 1]);
    if i < j - 1 {
        lemma_increasing_pairwise(s, i, j - 1);
    }
}

/// The month of calendar `c` in which day `j` falls: its new moon is on or
/// before `j` and the next one after it.
#[verifier::opaque]
pub open spec fn month_at(c: YearCalender, j: int) -> int {
    choose|k: int| 0 <= k < 14 && #[trigger] c.hs[k] <= j < c.hs[k + 1]
}

/// A dated event of a calendar year.
#[derive(Debug, Copy, Clone, PartialEq, Eq, Structural)]
pub enum CalendarEvent {
    /// The new moon that opens month `k`.
    NewMoon(usize),
    /// Solar term `i` (`zq[i]`).
    Term(usize),
}

/// The day of an event of `c`.
pub open spec fn event_day(c: YearCalender, e: CalendarEvent) -> int {
    match e {
        CalendarEvent::NewMoon(k) => c.hs[k as int] as int,
        CalendarEvent::Term(i) => c.zq[i as int] as int,
    }
}

/// Event `a` comes before event `b`: on an earlier day, or on the same day
/// as a new moon before a term.
pub open spec fn event_before(c: YearCalender, a: CalendarEvent, b: CalendarEvent) -> bool {
    event_day(c, a) < event_day(c, b) || (event_day(c, a) == event_day(c, b) && a is NewMoon && b is Term)
}

/// `e` is one of the first `ms` months or one of the 24 terms from the
/// first winter solstice on.
pub open spec fn event_of_year(ms: int, e: CalendarEvent) -> bool {
    match e {
        CalendarEvent::NewMoon(k) => k < ms,
        CalendarEvent::Term(i) => i < 24,
    }
}

/// The month holding a day is the one whose new moon is on or before it
/// and whose next new moon is after it.
pub proof fn lemma_month_at(c: YearCalender, j: int, k: int)
    requires
        c.wf(),
        0 <= k < 14,
        c.hs[k] <= j < c.hs[k + 1],
    ensures
        month_at(c, j) == k,
{
    reveal(month_at);
    let w = month_at(c, j);
    assert(0 <= k < 14 && c.hs[k] <= j < c.hs[k + 1]);
    if w < k {
        lemma_increasing_pairwise(c.hs@, w + 1, k);
    } else if w > k {
        lemma_increasing_pairwise(c.hs@, k + 1, w);
    }
}

proof fn lemma_some_month(c: YearCalender, j: int, k: int)
    requires
        c.wf(),
        0 <= k <= 13,
        c.hs[k] <= j < c.hs[14],
    ensures
        exists|i: int| 0 <= i < 14 && #[trigger] c.hs[i] <= j < c.hs[i + 1],
    decreases 13 - k,
{
    if k < 13 && c.hs[k + 1] <= j {
        lemma_some_month(c, j, k + 1);
    } else {
        assert(c.hs[k] <= j < c.hs[k + 1]);
    }
}

/// A day within the months of a calendar falls in one of them.
pub proof fn lemma_month_at_bounds(c: YearCalender, j: int)
    requires
        c.wf(),
        c.hs[0] <= j < c.hs[14],
    ensures
        0 <= month_at(c, j) < 14,
        c.hs[month_at(c, j)] <= j < c.hs[month_at(c, j) + 1],
{
    reveal(month_at);
    lemma_some_month(c, j, 0);
}

/// The calendar that a day belongs to: `cur` up to and including its
/// closing winter solstice, `next` after it.
pub open spec fn calendar_for(cur: YearCalender, next: YearCalender, j: int) -> YearCalender {
    if j > cur.zq[24] {
        next
    } else {
        cur
    }
}

/// The name of month `k`: its year, month and leap flag.
pub open spec fn month_name(c: YearCalender, k: int) -> (i32, i32, i32) {
    (c.month_info(k).0, c.month_info(k).1, c.month_info(k).2)
}

/// `next` is the calendar year after `cur`: its year is one more, its first
/// three terms are the last three of `cur`, and from the month holding
/// `cur`'s closing winter solstice on, the two share their new moons and
/// the names of their months.
#[verifier::opaque]
pub open spec fn follows(cur: YearCalender, next: YearCalender) -> bool {
    let s = month_at(cur, cur.zq[24] as int);
    &&& next.year == cur.year + 1
    &&& next.pe2 == cur.zq[22]
    &&& next.pe1 == cur.zq[23]
    &&& next.zq[0] == cur.zq[24]
    &&& forall|i: int|
        0 <= i < 15 - s ==> #[trigger] next.hs[i] == cur.hs[i + s] && month_name(next, i) == month_name(
            cur,
            i + s,
        )
}

/// Terms of a calendar come in strictly increasing order of their index.
pub proof fn lemma_term_increasing(c: YearCalender, a: int, b: int)
    requires
        c.wf(),
        0 <= a < b <= 26,
    ensures
        c.term(a) < c.term(b),
{
    if a >= 2 {
        lemma_increasing_pairwise(c.zq@, a - 2, b - 2);
    } else if b > 2 {
        lemma_increasing_pairwise(c.zq@, 0, b - 2);
    }
}

/// The solar terms and the new moons of every calendar year come in
/// strictly increasing order, `pe2` and `pe1` included.
pub proof fn lemma_instants_increasing(c: YearCalender)
    requires
        c.wf(),
    ensures
        forall|i: int| 0 <= i < 24 ==> #[trigger] c.zq[i] < c.zq[i + 1],
        forall|i: int| 0 <= i < 14 ==> #[trigger] c.hs[i] < c.hs[i + 1],
        forall|n: int| 0 <= n < 26 ==> #[trigger] c.term(n) < c.term(n + 1),
{
    assert forall|n: int| 0 <= n < 26 implies #[trigger] c.term(n) < c.term(n + 1) by {
        if n >= 2 {
            assert(c.zq@[n - 2] < c.zq@[(n - 2) + 1]);
        }
    }
}

/// The leap-month rule: a year has a leap month exactly when its thirteenth
/// new moon comes no later than its closing winter solstice; the leap month
/// is then the first month from month 1 on that ends on or before its
/// principal term (month 13 when every earlier one holds its term).
pub proof fn lemma_leap_month_rule(c: YearCalender)
    requires
        c.wf(),
    ensures
        c.lunar_leap == 0 <==> c.hs[13] > c.zq[24],
        c.lunar_leap != 0 ==> 1 <= c.lunar_leap <= 13,
        0 < c.lunar_leap < 13 ==> c.hs[c.lunar_leap + 1] <= c.zq[2 * c.lunar_leap],
        forall|k: int| 1 <= k < c.lunar_leap ==> #[trigger] c.hs[k + 1] > c.zq[2 * k],
{
    lemma_first_without_principal(c.zq@, c.hs@, 1);
}

/// A year built by the leap-month rule has at most one leap month, and it
/// has one exactly when its `lunar_leap` index is set: the month at that index.
pub proof fn lemma_single_leap_month(c: YearCalender)
    requires
        c.wf(),
    ensures
        forall|i: int, j: int|
            0 <= i < MOONS && 0 <= j < MOONS && #[trigger] c.lunar_month[i].leap && #[trigger] c.lunar_month[j].leap
                ==> i == j,
        forall|i: int| 0 <= i < MOONS && #[trigger] c.lunar_month[i].leap ==> i == c.lunar_leap,
        c.lunar_leap > 0 ==> c.lunar_leap < MOONS && c.lunar_month[c.lunar_leap as int].leap,
{
    lemma_leap_month_rule(c);
}

} // verus!
