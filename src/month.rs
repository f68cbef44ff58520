//! A civil month laid out day by day: weekday, lunar date, the pairs of the
//! day and of the month, and the solar term of the day. The days come from a
//! cursor that moves one day at a time over the terms and new moons of the
//! calendar year, passing into the next calendar year at its winter solstice.
use vstd::prelude::*;
use crate::calendar::{YearCalender, calendar_for, follows, month_at, month_name, lemma_month_at, lemma_month_at_bounds, lemma_term_increasing, MAX_DAY};
use crate::dates::{SolorDate, LunarDate, lunar_of_day, lemma_lunar_day_bounds};
use crate::ganzhi::{GanZhi, day_ganzhi, month_ganzhi};
use crate::julian::{day_number, valid_date, nth_day, from_day, days_of_month, weekday, month_span};

verus! {

/// Index, counted from `pe2`, of a calendar's closing winter solstice plus one:
/// reaching it passes into the next calendar year.
pub const TERM_END: usize = 27;

/// Index, counted from `pe2`, of the first term after a calendar's opening
/// winter solstice: where the term cursor stands after passing into the next
/// calendar year.
pub const TERM_AFTER_SOLSTICE: usize = 3;

/// What one civil day shows.
#[derive(Debug, Copy, Clone, Default, PartialEq, Eq, Structural)]
pub struct DateDetail {
    /// Day of the week, 0 for Sunday.
    pub week: i32,
    /// Day of the civil month (in the walk itself, the count of days).
    pub day: i32,
    /// The lunar date.
    pub lunar: LunarDate,
    /// The pair of the day.
    pub date_gz: GanZhi,
    /// The pair of the month (months change at the sectional terms).
    pub month_gz: GanZhi,
    /// Index (counted from `pe2`) of the solar term on this day, or -1.
    pub jq24: i32,
}

/// The state of the day-by-day walk: the current day and what it shows, the
/// calendar in force and the one after it, the next term and the next new
/// moon to look for.
#[derive(Debug, Copy, Clone)]
pub struct DayCursor {
    /// Day number of the current day.
    pub jd: i32,
    /// What the current day shows.
    pub detail: DateDetail,
    /// Calendar year in force.
    pub cal: YearCalender,
    /// Calendar year that follows `cal`.
    pub next_cal: YearCalender,
    /// Index, counted from `pe2`, of the next term to look for.
    pub jqn: usize,
    /// Index of the next new moon to look for.
    pub mth: usize,
}

impl DayCursor {
    /// The cursor's indices are in range and its pairs valid.
    #[verifier::opaque]
    pub open spec fn wf(self) -> bool {
        &&& self.cal.wf()
        &&& self.next_cal.wf()
        &&& 1 <= self.jqn < TERM_END
        &&& self.mth <= 15
        &&& self.detail.date_gz.wf()
        &&& self.detail.month_gz.wf()
    }

    /// The cursor one day later: the day's pair and weekday advance; a term
    /// on the new day is recorded, and a sectional term (odd index) advances
    /// the month's pair; after the closing winter solstice the next calendar
    /// takes over, its term cursor on the first term after its opening
    /// solstice and its new-moon cursor on its first new moon not before the
    /// new day; a new moon on the new day opens its month at day 1, else the
    /// lunar day counts on.
    #[verifier::opaque]
    pub open spec fn next(self) -> DayCursor {
        let jd = self.jd + 1;
        let hit = self.cal.term(self.jqn as int) == jd;
        let jq24 = if hit { self.jqn as i32 } else { -1i32 };
        let month_gz = if hit && self.jqn % 2 == 1 { self.detail.month_gz.next() } else { self.detail.month_gz };
        let jqn1 = if hit { self.jqn + 1 } else { self.jqn as int };
        let rolled = jqn1 == TERM_END;
        let cal = if rolled { self.next_cal } else { self.cal };
        let jqn = if rolled { TERM_AFTER_SOLSTICE as int } else { jqn1 };
        let mth0 = if rolled { moon_from(cal, jd, 0) } else { self.mth as int };
        let new_moon = mth0 < 15 && cal.hs[mth0] == jd;
        let info = cal.month_info(mth0);
        let lunar = if new_moon {
            LunarDate(info.0, info.1, 1, info.2)
        } else {
            LunarDate(self.detail.lunar.0, self.detail.lunar.1, (self.detail.lunar.2 + 1) as i32, self.detail.lunar.3)
        };
        let mth = if new_moon { mth0 + 1 } else { mth0 };
        DayCursor {
            jd: jd as i32,
            detail: DateDetail {
                week: ((self.detail.week + 1) % 7) as i32,
                day: (self.detail.day + 1) as i32,
                lunar,
                date_gz: self.detail.date_gz.next(),
                month_gz,
                jq24,
            },
            cal,
            next_cal: self.next_cal,
            jqn: jqn as usize,
            mth: mth as usize,
        }
    }

    /// Moves the cursor to the next day and returns what that day shows.
    pub fn step(&mut self) -> (r: DateDetail)
        requires
            old(self).wf(),
            0 <= old(self).jd < 2 * MAX_DAY,
            0 <= old(self).detail.week < 7,
            old(self).detail.day < 1_000_000,
            old(self).detail.lunar.2 < 100_000_000,
        ensures
            *final(self) == old(self).next(),
            final(self).wf(),
            r == final(self).detail,
    {
        proof {
            reveal(DayCursor::next);
            reveal(DayCursor::wf);
        }
        let jd: i32 = self.jd + 1;
        let mut jq24: i32 = -1;
        let mut month_gz = self.detail.month_gz;
        let mut jqn: usize = self.jqn;
        let mut mth: usize = self.mth;
        if self.cal.nth_q24(jqn) == jd {
            jq24 = jqn as i32;
            if jqn % 2 == 1 {
                month_gz = month_gz.inc();
            }
            jqn = jqn + 1;
            if jqn == TERM_END {
                self.cal = self.next_cal;
                jqn = TERM_AFTER_SOLSTICE;
                let mut k: usize = 0;
                while k < 15 && self.cal.hs[k] < jd
                    invariant
                        k <= 15,
                        moon_from(self.cal, jd as int, 0) == moon_from(self.cal, jd as int, k as int),
                    decreases 15 - k,
                {
                    k = k + 1;
                }
                mth = k;
            }
        }
        let lunar = if mth < 15 && self.cal.hs[mth] == jd {
            let (m_year, m_month, m_leap, _) = self.cal.nth_month(mth);
            mth = mth + 1;
            LunarDate(m_year, m_month, 1, m_leap)
        } else {
            LunarDate(self.detail.lunar.0, self.detail.lunar.1, self.detail.lunar.2 + 1, self.detail.lunar.3)
        };
        self.detail = DateDetail {
            week: (self.detail.week + 1) % 7,
            day: self.detail.day + 1,
            lunar,
            date_gz: self.detail.date_gz.inc(),
            month_gz,
            jq24,
        };
        self.jd = jd;
        self.jqn = jqn;
        self.mth = mth;
        self.detail
    }
}

/// The first new moon of `c`, from index `k` on, not before day `j` (15 when
/// there is none).
pub open spec fn moon_from(c: YearCalender, j: int, k: int) -> int
    decreases 15 - k,
{
    if k >= 15 || c.hs[k] >= j {
        k
    } else {
        moon_from(c, j, k + 1)
    }
}

proof fn lemma_moon_from(c: YearCalender, j: int, k: int)
    requires
        0 <= k <= 15,
    ensures
        k <= moon_from(c, j, k) <= 15,
    decreases 15 - k,
{
    if k < 15 && c.hs[k] < j {
        lemma_moon_from(c, j, k + 1);
    }
}

/// One step moves the day on by one: its number, day of the month, weekday
/// and pair; the month's pair advances exactly at a recorded sectional term;
/// the lunar day restarts at 1 or counts on; the calendar in force stays or
/// becomes the next one.
proof fn lemma_next_day(c: DayCursor)
    requires
        c.wf(),
        0 <= c.jd < 2 * MAX_DAY,
        0 <= c.detail.week < 7,
        c.detail.day < 1_000_000,
        1 <= c.detail.lunar.2 < 100_000_000,
    ensures
        c.next().jd == c.jd + 1,
        c.next().detail.day == c.detail.day + 1,
        c.next().detail.week == (c.detail.week + 1) % 7,
        c.next().detail.date_gz == c.detail.date_gz.next(),
        c.next().detail.month_gz == (if c.next().detail.jq24 != -1 && c.next().detail.jq24 % 2 == 1 {
            c.detail.month_gz.next()
        } else {
            c.detail.month_gz
        }),
        c.next().detail.lunar.2 == 1 || c.next().detail.lunar == LunarDate(
            c.detail.lunar.0,
            c.detail.lunar.1,
            (c.detail.lunar.2 + 1) as i32,
            c.detail.lunar.3,
        ),
        c.next().next_cal == c.next_cal,
        c.next().wf(),
{
    reveal(DayCursor::next);
    reveal(DayCursor::wf);
    crate::ganzhi::lemma_advance(c.detail.date_gz, 1);
    crate::ganzhi::lemma_advance(c.detail.month_gz, 1);
    lemma_moon_from(c.next_cal, c.jd + 1, 0);
}

/// The terms of `c` are at index `i` and beyond after day `j`, and before
/// it on or before `j - 1`: none falls on `j`.
proof fn lemma_no_term_on(c: YearCalender, j: int, i: int)
    requires
        c.wf(),
        1 <= i <= 26,
        c.term(i - 1) < j < c.term(i),
    ensures
        forall|k: int| 0 <= k < TERM_END ==> #[trigger] c.term(k) != j,
{
    assert forall|k: int| 0 <= k < TERM_END implies #[trigger] c.term(k) != j by {
        if k < i - 1 {
            lemma_term_increasing(c, k, i - 1);
        } else if k > i {
            lemma_term_increasing(c, i, k);
        }
    }
}

/// Where the cursor's term index stands for day `j`: on the first term of
/// its calendar after `j`.
pub open spec fn term_tracked(c: DayCursor, j: int) -> bool {
    1 <= c.jqn <= 26 && j < c.cal.term(c.jqn as int) && c.cal.term(c.jqn - 1) <= j
}

/// What a day shows of the terms of calendar `o`: the index of the term on
/// day `j`, or -1 when none falls on it.
#[verifier::opaque]
pub open spec fn term_shown(o: YearCalender, j: int, jq24: i32) -> bool {
    (0 <= jq24 < TERM_END && o.term(jq24 as int) == j) || (jq24 == -1 && forall|k: int|
        0 <= k < TERM_END ==> #[trigger] o.term(k) != j)
}

/// What one step does, spelled out: whether a term is hit, whether the
/// cursor passes into the next calendar, and how the new-moon index and the
/// lunar date move.
proof fn lemma_next_shape(c: DayCursor)
    requires
        c.wf(),
    ensures
        ({
            let jd = c.jd + 1;
            let hit = c.cal.term(c.jqn as int) == jd;
            let rolled = hit && c.jqn + 1 == TERM_END;
            let mth0 = if rolled { moon_from(c.next_cal, jd, 0) } else { c.mth as int };
            let cal = c.next().cal;
            &&& c.next().detail.jq24 == (if hit { c.jqn as i32 } else { -1i32 })
            &&& cal == (if rolled { c.next_cal } else { c.cal })
            &&& c.next().jqn == (if rolled { TERM_AFTER_SOLSTICE as int } else if hit { c.jqn + 1 } else {
                c.jqn as int
            })
            &&& (mth0 < 15 && cal.hs[mth0] == jd) ==> c.next().mth == mth0 + 1 && c.next().detail.lunar
                == LunarDate(cal.month_info(mth0).0, cal.month_info(mth0).1, 1, cal.month_info(mth0).2)
            &&& !(mth0 < 15 && cal.hs[mth0] == jd) ==> c.next().mth == mth0 && c.next().detail.lunar == LunarDate(
                c.detail.lunar.0,
                c.detail.lunar.1,
                (c.detail.lunar.2 + 1) as i32,
                c.detail.lunar.3,
            )
        }),
{
    reveal(DayCursor::next);
    reveal(DayCursor::wf);
    lemma_moon_from(c.next_cal, c.jd + 1, 0);
}

/// Moving from day `j` to `j + 1` before the closing solstice, the first
/// term after the day stays or moves on by one, and a day with no hit holds
/// no term.
proof fn lemma_terms_step(cal: YearCalender, j: int, n: int)
    requires
        cal.wf(),
        1 <= n <= 26,
        cal.term(n - 1) <= j < cal.term(n),
        j + 1 < cal.term(26),
    ensures
        cal.term(n) == j + 1 ==> n < 26 && j + 1 < cal.term(n + 1),
        cal.term(n) != j + 1 ==> j + 1 < cal.term(n) && forall|k: int| 0 <= k < TERM_END ==> #[trigger] cal.term(k)
            != j + 1,
{
    if cal.term(n) == j + 1 {
        if n == 26 {
            assert(false);
        }
        lemma_term_increasing(cal, n, n + 1);
    } else {
        lemma_no_term_on(cal, j + 1, n);
    }
}

/// Moving from day `j` to `j + 1` within the months of a calendar: a new
/// moon on `j + 1` opens the next month at day 1, otherwise the month stays
/// and the lunar day counts on.
proof fn lemma_lunar_step(cal: YearCalender, j: int)
    requires
        cal.wf(),
        cal.hs[0] <= j,
        j + 1 < cal.hs[14],
    ensures
        ({
            let k = month_at(cal, j);
            &&& 0 <= k < 14
            &&& cal.hs[k + 1] == j + 1 ==> month_at(cal, j + 1) == k + 1 && lunar_of_day(cal, j + 1) == LunarDate(
                cal.month_info(k + 1).0,
                cal.month_info(k + 1).1,
                1,
                cal.month_info(k + 1).2,
            )
            &&& cal.hs[k + 1] != j + 1 ==> month_at(cal, j + 1) == k && lunar_of_day(cal, j + 1) == LunarDate(
                lunar_of_day(cal, j).0,
                lunar_of_day(cal, j).1,
                (lunar_of_day(cal, j).2 + 1) as i32,
                lunar_of_day(cal, j).3,
            )
        }),
{
    reveal(lunar_of_day);
    lemma_month_at_bounds(cal, j);
    let k = month_at(cal, j);
    if cal.hs[k + 1] == j + 1 {
        lemma_month_at(cal, j + 1, k + 1);
    } else {
        lemma_month_at(cal, j + 1, k);
    }
}

/// A step that stays within the cursor's calendar (before its closing
/// solstice) keeps the term index, the new-moon index and the lunar date in
/// step with the day.
proof fn lemma_step_within(c: DayCursor)
    requires
        c.wf(),
        c.cal.wf(),
        c.cal.hs[0] <= c.jd,
        c.jd + 1 < c.cal.zq[24],
        term_tracked(c, c.jd as int),
        c.mth == month_at(c.cal, c.jd as int) + 1,
        c.detail.lunar == lunar_of_day(c.cal, c.jd as int),
    ensures
        c.next().cal == c.cal,
        term_tracked(c.next(), c.jd + 1),
        term_shown(c.cal, c.jd + 1, c.next().detail.jq24),
        c.next().mth == month_at(c.cal, c.jd + 1) + 1,
        c.next().detail.lunar == lunar_of_day(c.cal, c.jd + 1),
{
    reveal(term_shown);
    lemma_next_shape(c);
    lemma_terms_step(c.cal, c.jd as int, c.jqn as int);
    lemma_lunar_step(c.cal, c.jd as int);
}

/// The step onto the closing winter solstice of the cursor's calendar
/// records that solstice and passes into the next calendar, whose months
/// carry on from this one's.
proof fn lemma_step_roll(c: DayCursor)
    requires
        c.wf(),
        c.cal.wf(),
        c.next_cal.wf(),
        follows(c.cal, c.next_cal),
        c.cal.hs[0] <= c.jd,
        c.jd + 1 == c.cal.zq[24],
        term_tracked(c, c.jd as int),
        c.detail.lunar == lunar_of_day(c.cal, c.jd as int),
    ensures
        c.next().cal == c.next_cal,
        term_tracked(c.next(), c.jd + 1),
        term_shown(c.cal, c.jd + 1, c.next().detail.jq24),
        c.next().mth == month_at(c.next_cal, c.jd + 1) + 1,
        c.next().detail.lunar == lunar_of_day(c.cal, c.jd + 1),
{
    lemma_next_shape(c);
    reveal(follows);
    reveal(term_shown);
    let cal = c.cal;
    let nx = c.next_cal;
    let j = c.jd as int;
    let n = c.jqn as int;
    if n < 26 {
        lemma_term_increasing(cal, n, 26);
    }
    assert(n == 26);
    lemma_term_increasing(nx, 2, 3);
    lemma_month_at_bounds(cal, j + 1);
    let s = month_at(cal, j + 1);
    assert(nx.hs[0] == cal.hs[s]);
    assert(nx.hs[1] == cal.hs[s + 1]);
    assert(month_name(nx, 0) == month_name(cal, s));
    lemma_month_at(nx, j + 1, 0);
    reveal(lunar_of_day);
    if nx.hs[0] == j + 1 {
        assert(moon_from(nx, j + 1, 0) == 0);
    } else {
        assert(moon_from(nx, j + 1, 0) == moon_from(nx, j + 1, 1));
        assert(moon_from(nx, j + 1, 1) == 1);
        lemma_month_at(cal, j, s);
    }
}

/// On the winter solstice that closes `y` and opens `x`, the two calendars
/// give the same lunar date.
proof fn lemma_shared_solstice(y: YearCalender, x: YearCalender)
    requires
        y.wf(),
        x.wf(),
        follows(y, x),
    ensures
        lunar_of_day(y, y.zq[24] as int) == lunar_of_day(x, y.zq[24] as int),
{
    reveal(follows);
    reveal(lunar_of_day);
    let j = y.zq[24] as int;
    lemma_month_at_bounds(y, j);
    let s = month_at(y, j);
    assert(x.hs[0] == y.hs[s]);
    assert(x.hs[1] == y.hs[s + 1]);
    assert(month_name(x, 0) == month_name(y, s));
    lemma_month_at(x, j, 0);
}

/// The cursor after `n` steps.
pub open spec fn after(c: DayCursor, n: nat) -> DayCursor
    decreases n,
{
    if n == 0 {
        c
    } else {
        after(c, (n - 1) as nat).next()
    }
}

/// The first term of calendar `c`, counted from `pe2`, that falls after day `j`.
pub open spec fn first_term_after(c: YearCalender, j: int) -> int {
    choose|n: int|
        0 <= n <= 26 && j < #[trigger] c.term(n) && forall|m: int| 0 <= m < n ==> #[trigger] c.term(m) <= j
}

proof fn lemma_first_term_after(c: YearCalender, j: int, n: int)
    requires
        0 <= n <= 26,
        j < c.term(n),
        forall|m: int| 0 <= m < n ==> #[trigger] c.term(m) <= j,
    ensures
        first_term_after(c, j) == n,
{
    let w = first_term_after(c, j);
    assert(0 <= n <= 26 && j < c.term(n) && forall|m: int| 0 <= m < n ==> #[trigger] c.term(m) <= j);
    if w < n {
        assert(c.term(w) <= j);
    } else if w > n {
        assert(c.term(n) <= j);
    }
}

/// One civil month with the calendar years around it.
#[derive(Debug, Copy, Clone)]
pub struct MonthCalender {
    /// Civil year.
    pub years: i32,
    /// Civil month.
    pub month: i32,
    /// Day number of the first day of the month.
    pub firt_jd: i32,
    /// Number of days of the month.
    pub days: i32,
    /// Lunar date of the first day.
    pub lunnar_date: LunarDate,
    /// The calendar year that holds the first day.
    pub year_cal: YearCalender,
    /// The calendar year after `year_cal`.
    pub next_cal: YearCalender,
    /// Index in `year_cal` of the lunar month holding the first day.
    pub first_month: usize,
}

/// The calendar in force on day `j` of month `m`: `year_cal` before its
/// closing winter solstice, `next_cal` from it on.
pub open spec fn in_force(m: MonthCalender, j: int) -> YearCalender {
    if j >= m.year_cal.zq[24] {
        m.next_cal
    } else {
        m.year_cal
    }
}

impl MonthCalender {
    /// The fields describe the month `years`-`month`, which lies after the
    /// opening winter solstice of `year_cal`, starts before its closing one,
    /// and ends before the closing winter solstice of `next_cal`, the
    /// calendar year that follows it.
    pub open spec fn wf(self) -> bool {
        &&& valid_date(self.years as int, self.month as int, 1)
        &&& self.firt_jd == day_number(self.years as int, self.month as int, 1)
        &&& self.days == month_span(self.years as int, self.month as int)
        &&& self.year_cal.wf()
        &&& self.next_cal.wf()
        &&& follows(self.year_cal, self.next_cal)
        &&& self.year_cal.zq[0] < self.firt_jd < self.year_cal.zq[24]
        &&& self.firt_jd + self.days <= self.next_cal.zq[24]
        &&& self.first_month == month_at(self.year_cal, self.firt_jd as int)
        &&& self.lunnar_date == lunar_of_day(self.year_cal, self.firt_jd as int)
    }

    /// The month `year`-`month`, with `cur`, the calendar year closing in
    /// `year`, and `next`, the one after it. The first of a month falls after
    /// the winter solstice that opens `cur` and before the one that closes
    /// it, and the month ends before the one that closes `next`.
    pub fn new(year: i32, month: i32, cur: YearCalender, next: YearCalender) -> (r: MonthCalender)
        requires
            valid_date(year as int, month as int, 1),
            cur.wf(),
            next.wf(),
            follows(cur, next),
            cur.year == year,
            cur.zq[0] < day_number(year as int, month as int, 1) < cur.zq[24],
            day_number(year as int, month as int, 1) + month_span(year as int, month as int) <= next.zq[24],
        ensures
            r.wf(),
            r.years == year,
            r.month == month,
            r.year_cal == cur,
            r.next_cal == next,
    {
        let firt_jd: i32 = from_day(year, month, 1);
        let y = YearCalender::from_date(cur, next, month, 1);
        let days: i32 = Self::days(year, month);
        let (lunar_date, yx) = SolorDate(year, month, 1).to_lunar_date_(&cur, &next);
        MonthCalender {
            years: year,
            month,
            firt_jd,
            days,
            lunnar_date: lunar_date,
            year_cal: y,
            next_cal: next,
            first_month: yx,
        }
    }

    /// The number of days of month `m` of year `y`.
    pub fn days(y: i32, m: i32) -> (r: i32)
        requires
            valid_date(y as int, m as int, 1),
        ensures
            r == month_span(y as int, m as int),
    {
        days_of_month(y, m)
    }

    /// The cursor on the first day of the month.
    pub open spec fn start(self) -> DayCursor {
        let i = first_term_after(self.year_cal, self.firt_jd as int);
        let jq = i - 1;
        let t = self.year_cal.term(jq);
        DayCursor {
            jd: self.firt_jd,
            detail: DateDetail {
                week: weekday_of(self.firt_jd as int),
                day: 1,
                lunar: self.lunnar_date,
                date_gz: day_ganzhi(self.firt_jd as int),
                month_gz: month_ganzhi(self.year_cal.year as int, (jq + 1) / 2),
                jq24: if t == self.firt_jd { jq as i32 } else { -1i32 },
            },
            cal: self.year_cal,
            next_cal: self.next_cal,
            jqn: i as usize,
            mth: (self.first_month + 1) as usize,
        }
    }

    /// The days of the month, one by one, as the cursor from `start` shows
    /// them: each as `day_ok` describes it, the month's pair advancing
    /// exactly at a sectional term, and the lunar day restarting at 1 or
    /// counting on. Where the month passes the closing winter solstice,
    /// `year_cal` becomes the calendar in force at the end of the month.
    pub fn get_lunars(&mut self) -> (r: Vec<DateDetail>)
        requires
            old(self).wf(),
        ensures
            r@.len() == old(self).days,
            forall|i: int|
                0 <= i < r@.len() ==> #[trigger] r@[i] == shown(
                    after(old(self).start(), i as nat).detail,
                    nth_day(old(self).years as int, old(self).month as int, i),
                ),
            forall|i: int| 0 <= i < r@.len() ==> day_ok(*old(self), i, #[trigger] r@[i]),
            forall|i: int|
                0 <= i < r@.len() ==> (#[trigger] r@[i]).day == nth_day(old(self).years as int, old(self).month as int, i)
                    && valid_date(old(self).years as int, old(self).month as int, r@[i].day as int) && day_number(
                    old(self).years as int,
                    old(self).month as int,
                    r@[i].day as int,
                ) == old(self).firt_jd + i,
            forall|i: int|
                0 < i < r@.len() ==> (#[trigger] r@[i]).month_gz == (if r@[i].jq24 != -1 && r@[i].jq24 % 2 == 1 {
                    r@[i - 1].month_gz.next()
                } else {
                    r@[i - 1].month_gz
                }),
            forall|i: int|
                0 < i < r@.len() ==> (#[trigger] r@[i]).lunar.2 == 1 || r@[i].lunar == LunarDate(
                    r@[i - 1].lunar.0,
                    r@[i - 1].lunar.1,
                    (r@[i - 1].lunar.2 + 1) as i32,
                    r@[i - 1].lunar.3,
                ),
            final(self).year_cal == after(old(self).start(), (old(self).days - 1) as nat).cal,
            final(self).year_cal == in_force(*old(self), old(self).firt_jd + old(self).days - 1),
            final(self).years == old(self).years,
            final(self).month == old(self).month,
            final(self).firt_jd == old(self).firt_jd,
            final(self).days == old(self).days,
            final(self).lunnar_date == old(self).lunnar_date,
            final(self).next_cal == old(self).next_cal,
    {
        let fjd: i32 = self.firt_jd;
        proof {
            lemma_first_lunar_day(*self);
        }
        let i: usize = self.year_cal.next_term_index(fjd);
        proof {
            lemma_first_term_after(self.year_cal, fjd as int, i as int);
        }
        let jq: usize = i - 1;
        let jqm: i32 = (jq as i32 + 1) / 2;
        let month_gz = GanZhi::of_month(self.year_cal.year, jqm);
        let date_gz = GanZhi::of_day(fjd);
        let jq24: i32 = if fjd == self.year_cal.nth_q24(jq) {
            jq as i32
        } else {
            -1
        };
        let first = DateDetail {
            week: weekday(fjd),
            day: 1,
            lunar: self.lunnar_date,
            date_gz,
            month_gz,
            jq24,
        };
        let mut cursor = DayCursor {
            jd: fjd,
            detail: first,
            cal: self.year_cal,
            next_cal: self.next_cal,
            jqn: i,
            mth: self.first_month + 1,
        };
        let ghost c0 = cursor;
        assert(c0 == old(self).start());
        proof {
            reveal(term_shown);
            if jq24 == -1 {
                lemma_no_term_on(self.year_cal, fjd as int, i as int);
            }
            reveal(cursor_ok);
            reveal(DayCursor::wf);
        }
        assert(cursor_ok(*self, cursor, 1));
        let mut result: Vec<DateDetail> = Vec::new();
        proof {
            crate::julian::lemma_nth_day(self.years as int, self.month as int, 0);
        }
        result.push(first);
        let mut k: i32 = 1;
        while k < self.days
            invariant
                *self == *old(self),
                self.wf(),
                0 <= self.firt_jd <= MAX_DAY,
                self.days <= 31,
                1 <= k <= self.days,
                cursor == after(c0, (k - 1) as nat),
                cursor_ok(*self, cursor, k as int),
                result@.len() == k,
                forall|n: int|
                    0 <= n < k ==> #[trigger] result@[n] == shown(
                        after(c0, n as nat).detail,
                        nth_day(self.years as int, self.month as int, n),
                    ),
                forall|n: int|
                    0 <= n < k ==> (#[trigger] result@[n]).day == nth_day(self.years as int, self.month as int, n)
                        && valid_date(self.years as int, self.month as int, result@[n].day as int) && day_number(
                        self.years as int,
                        self.month as int,
                        result@[n].day as int,
                    ) == self.firt_jd + n,
                forall|n: int| 0 <= n < k ==> day_ok(*self, n, #[trigger] result@[n]),
                forall|n: int|
                    0 < n < k ==> (#[trigger] result@[n]).month_gz == (if result@[n].jq24 != -1 && result@[n].jq24
                        % 2 == 1 {
                        result@[n - 1].month_gz.next()
                    } else {
                        result@[n - 1].month_gz
                    }),
                forall|n: int|
                    0 < n < k ==> (#[trigger] result@[n]).lunar.2 == 1 || result@[n].lunar == LunarDate(
                        result@[n - 1].lunar.0,
                        result@[n - 1].lunar.1,
                        (result@[n - 1].lunar.2 + 1) as i32,
                        result@[n - 1].lunar.3,
                    ),
            decreases self.days - k,
        {
            proof {
                assert(after(c0, k as nat) == after(c0, (k - 1) as nat).next());
                lemma_cursor_step(*self, cursor, k as int);
                reveal(cursor_ok);
            }
            let d = cursor.step();
            let day: i32 = if self.years == 1582 && self.month == 10 && k >= 4 {
                k + 11
            } else {
                k + 1
            };
            proof {
                crate::julian::lemma_nth_day(self.years as int, self.month as int, k as int);
            }
            result.push(
                DateDetail {
                    week: d.week,
                    day,
                    lunar: d.lunar,
                    date_gz: d.date_gz,
                    month_gz: d.month_gz,
                    jq24: d.jq24,
                },
            );
            k = k + 1;
        }
        proof {
            reveal(cursor_ok);
        }
        self.year_cal = cursor.cal;
        result
    }
}

/// A day as shown in the month: the cursor's detail with its day of the month.
pub open spec fn shown(d: DateDetail, day: int) -> DateDetail {
    DateDetail {
        week: d.week,
        day: day as i32,
        lunar: d.lunar,
        date_gz: d.date_gz,
        month_gz: d.month_gz,
        jq24: d.jq24,
    }
}

/// What day `n` of month `m` (counted from 0) shows: its weekday and pair;
/// the index of the solar term of the calendar that owns the day (see
/// `calendar_for`) falling on it, or -1 when none does; and the lunar date
/// of the day in that calendar, a day from 1 to 30.
pub open spec fn day_ok(m: MonthCalender, n: int, d: DateDetail) -> bool {
    let j = m.firt_jd + n;
    let o = calendar_for(m.year_cal, m.next_cal, j);
    &&& d.week == weekday_of(j)
    &&& d.date_gz == day_ganzhi(j)
    &&& term_shown(o, j, d.jq24)
    &&& d.lunar == lunar_of_day(o, j)
    &&& 1 <= d.lunar.2 <= 30
}

/// The cursor stands on day `k - 1` of month `m` and shows it as `day_ok`
/// says; it reads the calendar in force, its term index on the first term
/// after the day and its new-moon index on the first new moon after it.
#[verifier::opaque]
spec fn cursor_ok(m: MonthCalender, c: DayCursor, k: int) -> bool {
    let j = m.firt_jd + k - 1;
    &&& c.wf()
    &&& c.jd == j
    &&& c.detail.day == k
    &&& day_ok(m, k - 1, c.detail)
    &&& c.cal == in_force(m, j)
    &&& c.next_cal == m.next_cal
    &&& term_tracked(c, j)
    &&& c.mth == month_at(c.cal, j) + 1
}

/// The facts of a step that do not depend on the calendars.
proof fn lemma_basic_step(m: MonthCalender, c: DayCursor, k: int)
    requires
        0 <= m.firt_jd <= MAX_DAY,
        1 <= k < m.days <= 31,
        cursor_ok(m, c, k),
    ensures
        c.wf(),
        0 <= c.jd < 2 * MAX_DAY,
        0 <= c.detail.week < 7,
        c.detail.day < 1_000_000,
        c.detail.lunar.2 < 100_000_000,
        c.jd == m.firt_jd + k - 1,
        c.cal == in_force(m, c.jd as int),
        c.next_cal == m.next_cal,
        term_tracked(c, c.jd as int),
        c.mth == month_at(c.cal, c.jd as int) + 1,
        c.detail.lunar == lunar_of_day(calendar_for(m.year_cal, m.next_cal, c.jd as int), c.jd as int),
        c.next().wf(),
        c.next().jd == c.jd + 1,
        c.next().next_cal == m.next_cal,
        c.next().detail.day == k + 1,
        c.next().detail.week == weekday_of(c.jd + 1),
        c.next().detail.date_gz == day_ganzhi(c.jd + 1),
        c.next().detail.month_gz == (if c.next().detail.jq24 != -1 && c.next().detail.jq24 % 2 == 1 {
            c.detail.month_gz.next()
        } else {
            c.detail.month_gz
        }),
        c.next().detail.lunar.2 == 1 || c.next().detail.lunar == LunarDate(
            c.detail.lunar.0,
            c.detail.lunar.1,
            (c.detail.lunar.2 + 1) as i32,
            c.detail.lunar.3,
        ),
{
    reveal(cursor_ok);
    let j = m.firt_jd + k - 1;
    crate::ganzhi::lemma_day_ganzhi_next(j);
    lemma_weekday_next(j);
    lemma_next_day(c);
}

/// The facts of a step that follow the calendars (the calendar in force,
/// the term and new-moon indices, the term shown and the lunar date), for a
/// step before the closing solstice of `year_cal`, onto it, and after it.
proof fn lemma_step_in_year(m: MonthCalender, c: DayCursor)
    requires
        m.year_cal.wf(),
        m.next_cal.wf(),
        follows(m.year_cal, m.next_cal),
        m.year_cal.zq[0] < m.firt_jd <= c.jd,
        c.jd + 1 < m.firt_jd + m.days <= m.next_cal.zq[24],
        c.jd + 1 < m.year_cal.zq[24],
        c.wf(),
        c.cal == in_force(m, c.jd as int),
        c.next_cal == m.next_cal,
        term_tracked(c, c.jd as int),
        c.mth == month_at(c.cal, c.jd as int) + 1,
        c.detail.lunar == lunar_of_day(calendar_for(m.year_cal, m.next_cal, c.jd as int), c.jd as int),
    ensures
        c.next().cal == in_force(m, c.jd + 1),
        term_tracked(c.next(), c.jd + 1),
        c.next().mth == month_at(c.next().cal, c.jd + 1) + 1,
        term_shown(calendar_for(m.year_cal, m.next_cal, c.jd + 1), c.jd + 1, c.next().detail.jq24),
        c.next().detail.lunar == lunar_of_day(calendar_for(m.year_cal, m.next_cal, c.jd + 1), c.jd + 1),
        1 <= c.next().detail.lunar.2 <= 30,
{
    lemma_step_within(c);
    lemma_lunar_day_bounds(m.year_cal, c.jd + 1);
}

proof fn lemma_step_onto_solstice(m: MonthCalender, c: DayCursor)
    requires
        m.year_cal.wf(),
        m.next_cal.wf(),
        follows(m.year_cal, m.next_cal),
        m.year_cal.zq[0] < m.firt_jd <= c.jd,
        c.jd + 1 < m.firt_jd + m.days <= m.next_cal.zq[24],
        c.jd + 1 == m.year_cal.zq[24],
        c.wf(),
        c.cal == in_force(m, c.jd as int),
        c.next_cal == m.next_cal,
        term_tracked(c, c.jd as int),
        c.mth == month_at(c.cal, c.jd as int) + 1,
        c.detail.lunar == lunar_of_day(calendar_for(m.year_cal, m.next_cal, c.jd as int), c.jd as int),
    ensures
        c.next().cal == in_force(m, c.jd + 1),
        term_tracked(c.next(), c.jd + 1),
        c.next().mth == month_at(c.next().cal, c.jd + 1) + 1,
        term_shown(calendar_for(m.year_cal, m.next_cal, c.jd + 1), c.jd + 1, c.next().detail.jq24),
        c.next().detail.lunar == lunar_of_day(calendar_for(m.year_cal, m.next_cal, c.jd + 1), c.jd + 1),
        1 <= c.next().detail.lunar.2 <= 30,
{
    lemma_step_roll(c);
    lemma_lunar_day_bounds(m.year_cal, c.jd + 1);
}

proof fn lemma_step_in_next(m: MonthCalender, c: DayCursor)
    requires
        m.year_cal.wf(),
        m.next_cal.wf(),
        follows(m.year_cal, m.next_cal),
        m.year_cal.zq[0] < m.firt_jd <= c.jd,
        c.jd + 1 < m.firt_jd + m.days <= m.next_cal.zq[24],
        c.jd + 1 > m.year_cal.zq[24],
        c.wf(),
        c.cal == in_force(m, c.jd as int),
        c.next_cal == m.next_cal,
        term_tracked(c, c.jd as int),
        c.mth == month_at(c.cal, c.jd as int) + 1,
        c.detail.lunar == lunar_of_day(calendar_for(m.year_cal, m.next_cal, c.jd as int), c.jd as int),
    ensures
        c.next().cal == in_force(m, c.jd + 1),
        term_tracked(c.next(), c.jd + 1),
        c.next().mth == month_at(c.next().cal, c.jd + 1) + 1,
        term_shown(calendar_for(m.year_cal, m.next_cal, c.jd + 1), c.jd + 1, c.next().detail.jq24),
        c.next().detail.lunar == lunar_of_day(calendar_for(m.year_cal, m.next_cal, c.jd + 1), c.jd + 1),
        1 <= c.next().detail.lunar.2 <= 30,
{
    let x = m.next_cal;
    reveal(follows);
    assert(x.zq[0] == m.year_cal.zq[24]);
    lemma_term_increasing(x, 2, 26);
    if c.jd == m.year_cal.zq[24] {
        lemma_shared_solstice(m.year_cal, x);
    }
    lemma_step_within(c);
    lemma_lunar_day_bounds(x, c.jd + 1);
}

proof fn lemma_cursor_step(m: MonthCalender, c: DayCursor, k: int)
    requires
        m.year_cal.wf(),
        m.next_cal.wf(),
        follows(m.year_cal, m.next_cal),
        m.year_cal.zq[0] < m.firt_jd,
        m.firt_jd + m.days <= m.next_cal.zq[24],
        0 <= m.firt_jd <= MAX_DAY,
        1 <= k < m.days <= 31,
        cursor_ok(m, c, k),
    ensures
        cursor_ok(m, c.next(), k + 1),
        day_ok(m, k, c.next().detail),
        c.wf(),
        0 <= c.jd < 2 * MAX_DAY,
        0 <= c.detail.week < 7,
        c.detail.day < 1_000_000,
        c.detail.lunar.2 < 100_000_000,
        c.next().detail.month_gz == (if c.next().detail.jq24 != -1 && c.next().detail.jq24 % 2 == 1 {
            c.detail.month_gz.next()
        } else {
            c.detail.month_gz
        }),
        c.next().detail.lunar.2 == 1 || c.next().detail.lunar == LunarDate(
            c.detail.lunar.0,
            c.detail.lunar.1,
            (c.detail.lunar.2 + 1) as i32,
            c.detail.lunar.3,
        ),
{
    lemma_basic_step(m, c, k);
    if c.jd + 1 < m.year_cal.zq[24] {
        lemma_step_in_year(m, c);
    } else if c.jd + 1 == m.year_cal.zq[24] {
        lemma_step_onto_solstice(m, c);
    } else {
        lemma_step_in_next(m, c);
    }
    assert(day_ok(m, k, c.next().detail));
    reveal(cursor_ok);
}

proof fn lemma_first_lunar_day(m: MonthCalender)
    requires
        m.wf(),
    ensures
        1 <= m.lunnar_date.2 <= 30,
        0 <= m.firt_jd <= MAX_DAY,
        m.days <= 31,
        m.first_month < 14,
        m.year_cal.hs[0] <= m.firt_jd,
{
    lemma_month_at_bounds(m.year_cal, m.firt_jd as int);
    lemma_lunar_day_bounds(m.year_cal, m.firt_jd as int);
}

/// The weekday of day number `j`, 0 for Sunday.
pub open spec fn weekday_of(j: int) -> i32 {
    ((j + 1) % 7) as i32
}

proof fn lemma_weekday_next(j: int)
    ensures
        ((weekday_of(j) + 1) % 7) as i32 == weekday_of(j + 1),
{
    assert(((j + 1) % 7 + 1) % 7 == (j + 2) % 7) by {
        vstd::arithmetic::div_mod::lemma_add_mod_noop(j + 1, 1, 7);
    }
}

} // verus!
