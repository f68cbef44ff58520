//! Civil (solar) dates and lunar dates, and the conversions between them
//! through the calendar years that cover them.
use vstd::prelude::*;
use crate::calendar::{YearCalender, MonthCode, calendar_for, follows, month_at, month_name, month_length, lemma_month_at, lemma_month_at_bounds, lemma_increasing_pairwise, MAX_DAY};
use crate::ganzhi::{GanZhi, day_ganzhi, year_ganzhi, month_ganzhi, hour_ganzhi, MINUTES_PER_DAY, NIGHT_START};
use crate::julian::{day_number, valid_date, civil_date, from_day, jd2day, MAX_YEAR};

verus! {

/// A civil date: year, month, day.
#[derive(Debug, Copy, Clone, Default, PartialEq, Eq, Structural)]
pub struct SolorDate(pub i32, pub i32, pub i32);

/// A lunar date: year, month (1 to 12), day, and 1 for a leap month (else 0).
#[derive(Debug, Copy, Clone, Default, PartialEq, Eq, Structural)]
pub struct LunarDate(pub i32, pub i32, pub i32, pub i32);

/// Why a lunar date has no civil date.
#[derive(Debug, Copy, Clone, PartialEq, Eq, Structural)]
pub enum CalendarError {
    /// No month of the calendar year carries the date's month name.
    InvalidMonthCode,
}

/// Whether day `j` lies within the months of calendar `c`.
pub open spec fn covers(c: YearCalender, j: int) -> bool {
    c.hs[0] <= j < c.hs[14]
}

/// The lunar date of day `j` in calendar `c`.
#[verifier::opaque]
pub open spec fn lunar_of_day(c: YearCalender, j: int) -> LunarDate {
    let k = month_at(c, j);
    let info = c.month_info(k);
    LunarDate(info.0, info.1, (j - c.hs[k] + 1) as i32, info.2)
}

/// The lunar day of a day within the months of a calendar is from 1 to 30.
pub proof fn lemma_lunar_day_bounds(c: YearCalender, j: int)
    requires
        c.wf(),
        covers(c, j),
    ensures
        1 <= lunar_of_day(c, j).2 <= 30,
{
    reveal(lunar_of_day);
    crate::calendar::lemma_month_at_bounds(c, j);
    let k = month_at(c, j);
    assert(c.hs@[k + 1] - c.hs@[k] <= 30);
}

/// The calendar whose terms are read for day `j`: from the closing winter
/// solstice of `cur` on, `next`.
pub open spec fn term_calendar(cur: YearCalender, next: YearCalender, j: int) -> YearCalender {
    if j >= cur.zq[24] {
        next
    } else {
        cur
    }
}

/// The index (counted from `pe2`) of the last term of calendar `c` on or
/// before day `j`, moved back one when its kind is not the one asked for
/// (kind 0: principal terms, at even indices; kind 1: sectional terms, at odd
/// indices), then moved `2 * d` forward.
pub open spec fn term_index(c: YearCalender, j: int, kind: int, d: int) -> int {
    let prev = (choose|n: int| 0 <= n < 26 && #[trigger] c.term(n) <= j < c.term(n + 1));
    let same = if (kind == 0 && prev % 2 != 0) || (kind == 1 && prev % 2 != 1) {
        prev - 1
    } else {
        prev
    };
    same + 2 * d
}

impl SolorDate {
    /// The date exists and lies in the supported years.
    pub open spec fn wf(self) -> bool {
        valid_date(self.0 as int, self.1 as int, self.2 as int)
    }

    /// The day number of the date.
    pub open spec fn day(self) -> int {
        day_number(self.0 as int, self.1 as int, self.2 as int)
    }

    /// The lunar date of this day, and the index of its month in the
    /// calendar year that holds it. `cur` is the calendar closing in this
    /// date's year, `next` the one after it.
    pub fn to_lunar_date_(&self, cur: &YearCalender, next: &YearCalender) -> (r: (LunarDate, usize))
        requires
            self.wf(),
            cur.wf(),
            next.wf(),
            covers(calendar_for(*cur, *next, self.day()), self.day()),
        ensures
            r.0 == lunar_of_day(calendar_for(*cur, *next, self.day()), self.day()),
            r.1 == month_at(calendar_for(*cur, *next, self.day()), self.day()),
    {
        let j: i32 = from_day(self.0, self.1, self.2);
        let c: &YearCalender = if j > cur.zq[24] {
            next
        } else {
            cur
        };
        let k: usize = c.month_index(j);
        let (ly, lm, lleap, _) = c.nth_month(k);
        proof {
            reveal(lunar_of_day);
        }
        (LunarDate(ly, lm, j - c.hs[k] + 1, lleap), k)
    }

    /// The term of kind `kind` (0 principal, 1 sectional) on or before this
    /// day (`d == 0`), or the next one of that kind after it (`d == 1`): its
    /// day and its index counted from `pe2`, in the calendar whose terms
    /// cover the day. `None` when the term asked for lies past that calendar.
    pub fn jq24(&self, cur: &YearCalender, next: &YearCalender, kind: i32, d: usize) -> (r: Option<(i32, usize)>)
        requires
            self.wf(),
            cur.wf(),
            next.wf(),
            kind == 0 || kind == 1,
            d <= 1,
            term_calendar(*cur, *next, self.day()).pe1 <= self.day() < term_calendar(*cur, *next, self.day()).zq[24],
        ensures
            d == 0 ==> r is Some,
            r is None <==> term_index(term_calendar(*cur, *next, self.day()), self.day(), kind as int, d as int) > 26,
            r matches Some(p) ==> p.1 == term_index(term_calendar(*cur, *next, self.day()), self.day(), kind as int, d as int)
                && p.0 == term_calendar(*cur, *next, self.day()).term(p.1 as int),
    {
        let j: i32 = from_day(self.0, self.1, self.2);
        let c: &YearCalender = if j >= cur.zq[24] {
            next
        } else {
            cur
        };
        let i: usize = c.next_term_index(j);
        proof {
            lemma_term_bracket(*c, j as int, i as int);
        }
        let mut prev: usize = i - 1;
        if (kind == 0 && prev % 2 != 0) || (kind == 1 && prev % 2 != 1) {
            prev = prev - 1;
        }
        let idx: usize = prev + 2 * d;
        if idx > 26 {
            return None;
        }
        Some((c.nth_q24(idx), idx))
    }

    /// The four pillars of the moment `t` minutes after midnight of this day:
    /// the pairs of its year, month, day and double hour. Months and years
    /// change at the sectional terms; the year changes at the beginning of
    /// spring (term 5), days before it counting to the previous year.
    /// `term_ahead` tells whether the exact instant of the sectional term
    /// that `jq24(cur, next, 1, 0)` gives is still ahead of this moment; the
    /// month then is the one before (month number 0, the one before month 1
    /// that `pe1` opens, when that term is `pe1`). From 23:00 the day is the
    /// next one.
    pub fn sizhu(&self, cur: &YearCalender, next: &YearCalender, t: i32, term_ahead: bool) -> (r: (
        GanZhi,
        GanZhi,
        GanZhi,
        GanZhi,
    ))
        requires
            self.wf(),
            cur.wf(),
            next.wf(),
            0 <= t < MINUTES_PER_DAY,
            term_calendar(*cur, *next, self.day()).pe1 <= self.day() < term_calendar(*cur, *next, self.day()).zq[24],
        ensures
            ({
                let c = term_calendar(*cur, *next, self.day());
                let jq = term_index(c, self.day(), 1, 0);
                let n = if term_ahead { jq - 2 } else { jq };
                let day = if t > NIGHT_START { day_ganzhi(self.day() + 1) } else { day_ganzhi(self.day()) };
                &&& r.0 == year_ganzhi(if n < 5 { c.year - 1 } else { c.year as int })
                &&& r.1 == month_ganzhi(c.year as int, (n + 1) / 2)
                &&& r.2 == day
                &&& r.3 == hour_ganzhi(day, t as int)
            }),
    {
        let j: i32 = from_day(self.0, self.1, self.2);
        let year: i32 = if j >= cur.zq[24] {
            next.year
        } else {
            cur.year
        };
        let jq: usize = match self.jq24(cur, next, 1, 0) {
            Some(p) => p.1,
            None => 0,
        };
        let n: i32 = if term_ahead {
            jq as i32 - 2
        } else {
            jq as i32
        };
        let month_gz = GanZhi::of_month(year, (n + 1) / 2);
        let years: i32 = if n < 5 {
            year - 1
        } else {
            year
        };
        let year_gz = GanZhi::of_year(years);
        let date_gz = if t > NIGHT_START {
            GanZhi::of_day(j + 1)
        } else {
            GanZhi::of_day(j)
        };
        let time_gz = date_gz.of_hour(t);
        (year_gz, month_gz, date_gz, time_gz)
    }

    /// The lunar date of this day (see `to_lunar_date_`).
    pub fn to_lunar_date(&self, cur: &YearCalender, next: &YearCalender) -> (r: LunarDate)
        requires
            self.wf(),
            cur.wf(),
            next.wf(),
            covers(calendar_for(*cur, *next, self.day()), self.day()),
        ensures
            r == lunar_of_day(calendar_for(*cur, *next, self.day()), self.day()),
    {
        let (d, _) = self.to_lunar_date_(cur, next);
        d
    }
}

proof fn lemma_term_order(c: YearCalender, a: int, b: int)
    requires
        c.wf(),
        0 <= a <= b <= 26,
    ensures
        c.term(a) <= c.term(b),
    decreases b - a,
{
    crate::calendar::lemma_instants_increasing(c);
    if a < b {
        lemma_term_order(c, a, b - 1);
        assert(c.term(b - 1) < c.term((b - 1) + 1));
    }
}

/// The last term on or before `j` is the one before the first term after it.
proof fn lemma_term_bracket(c: YearCalender, j: int, i: int)
    requires
        c.wf(),
        1 <= i <= 26,
        c.term(i - 1) <= j < c.term(i),
    ensures
        (choose|n: int| 0 <= n < 26 && #[trigger] c.term(n) <= j < c.term(n + 1)) == i - 1,
{
    let w = choose|n: int| 0 <= n < 26 && #[trigger] c.term(n) <= j < c.term(n + 1);
    assert(0 <= i - 1 < 26 && c.term(i - 1) <= j < c.term((i - 1) + 1));
    if w < i - 1 {
        lemma_term_order(c, w + 1, i - 1);
    } else if w > i - 1 {
        lemma_term_order(c, i, w);
    }
}

/// The month name that a lunar date asks for: the eleventh and twelfth
/// months are looked up as months 0 and 1 of the following calendar year.
pub open spec fn wanted_code(d: LunarDate) -> MonthCode {
    MonthCode { month: ((d.1 + 1) % 12) as i32, leap: d.3 == 1 }
}

/// The calendar year in which a lunar date's month is looked up.
pub open spec fn lookup_year(d: LunarDate) -> int {
    if d.1 >= 11 {
        d.0 + 1
    } else {
        d.0 as int
    }
}

/// The first month, from `k` on, named `code` (15 when none is).
pub open spec fn position_from(c: YearCalender, code: MonthCode, k: int) -> int
    decreases 15 - k,
{
    if k >= 15 {
        15
    } else if c.lunar_month[k] == code {
        k
    } else {
        position_from(c, code, k + 1)
    }
}

proof fn lemma_position_from(c: YearCalender, code: MonthCode, k: int)
    requires
        0 <= k <= 15,
    ensures
        k <= position_from(c, code, k) <= 15,
        position_from(c, code, k) < 15 ==> c.lunar_month[position_from(c, code, k)] == code,
        position_from(c, code, k) == 15 ==> forall|i: int| k <= i < 15 ==> #[trigger] c.lunar_month[i] != code,
    decreases 15 - k,
{
    if k < 15 && c.lunar_month[k] != code {
        lemma_position_from(c, code, k + 1);
    }
}

impl LunarDate {
    /// The civil date of this lunar date, through `cal`, the calendar year
    /// in which its month is looked up (`lookup_year`). The day is counted
    /// from the new moon of the first month of `cal` named as asked; when no
    /// month is, the result is `InvalidMonthCode`.
    pub fn to_solor_date(&self, cal: &YearCalender) -> (r: Result<SolorDate, CalendarError>)
        requires
            cal.wf(),
            cal.year == lookup_year(*self),
            1 <= self.1 <= 12,
            1 <= self.2 <= 30,
            self.3 == 0 || self.3 == 1,
        ensures
            r is Err <==> position_from(*cal, wanted_code(*self), 0) == 15,
            r matches Ok(s) ==> s.wf() && s.day() == cal.hs[position_from(*cal, wanted_code(*self), 0)]
                + self.2 - 1,
            r matches Ok(s) ==> (s.0 as int, s.1 as int, s.2 as int) == civil_date(
                cal.hs[position_from(*cal, wanted_code(*self), 0)] + self.2 - 1,
            ),
            r matches Err(e) ==> e == CalendarError::InvalidMonthCode,
    {
        let code = MonthCode { month: (self.1 + 1) % 12, leap: self.3 == 1 };
        proof {
            lemma_position_from(*cal, code, 0);
        }
        let mut k: usize = 0;
        while k < 15 && cal.lunar_month[k] != code
            invariant
                k <= 15,
                position_from(*cal, code, 0) == position_from(*cal, code, k as int),
            decreases 15 - k,
        {
            k = k + 1;
        }
        if k == 15 {
            return Err(CalendarError::InvalidMonthCode);
        }
        let j: i32 = cal.hs[k] + self.2 - 1;
        assert(day_number(MAX_YEAR + 1, 1, 1) > MAX_DAY + 30);
        let (y, m, d) = jd2day(j);
        Ok(SolorDate(y, m, d))
    }
}

/// Lunar to civil and back, within one calendar year: when the month asked
/// for is one of the first fourteen months of `cal` and the day exists in it,
/// the lunar date of the day that `to_solor_date` picks is the date asked for.
pub proof fn lemma_lunar_round_trip(cal: YearCalender, d: LunarDate)
    requires
        cal.wf(),
        cal.year == lookup_year(d),
        1 <= d.1 <= 12,
        1 <= d.2,
        d.3 == 0 || d.3 == 1,
        position_from(cal, wanted_code(d), 0) < 14,
        d.2 <= month_length(cal.hs@, position_from(cal, wanted_code(d), 0)),
    ensures
        lunar_of_day(cal, cal.hs[position_from(cal, wanted_code(d), 0)] + d.2 - 1) == d,
{
    let k = position_from(cal, wanted_code(d), 0);
    let j = cal.hs[k] + d.2 - 1;
    lemma_position_from(cal, wanted_code(d), 0);
    lemma_month_at(cal, j, k);
    reveal(lunar_of_day);
}

/// Where two consecutive calendar years overlap, from the first new moon of
/// the later one to the last new moon of the earlier one, they give every
/// day the same lunar date.
pub proof fn lemma_overlap_agrees(y: YearCalender, x: YearCalender, j: int)
    requires
        y.wf(),
        x.wf(),
        follows(y, x),
        x.hs[0] <= j < y.hs[14],
    ensures
        lunar_of_day(y, j) == lunar_of_day(x, j),
{
    reveal(follows);
    reveal(lunar_of_day);
    lemma_month_at_bounds(y, y.zq[24] as int);
    let s = month_at(y, y.zq[24] as int);
    assert(x.hs[14 - s] == y.hs[(14 - s) + s]);
    if s > 0 {
        lemma_increasing_pairwise(x.hs@, 14 - s, 14);
    }
    lemma_month_at_bounds(x, j);
    let m = month_at(x, j);
    if m >= 14 - s {
        if m > 14 - s {
            lemma_increasing_pairwise(x.hs@, 14 - s, m);
        }
        assert(false);
    }
    assert(x.hs[m] == y.hs[m + s]);
    assert(x.hs[m + 1] == y.hs[(m + 1) + s]);
    assert(month_name(x, m) == month_name(y, m + s));
    lemma_month_at(y, j, m + s);
}

/// Lunar to civil and back, through two consecutive calendar years: when
/// the month asked for lies in `cal` (one of the two), holds the day asked
/// for and starts before the last new moon of `cal`, the day that
/// `to_solor_date` picks has, in the calendar that `to_lunar_date` reads for
/// it, the lunar date asked for.
pub proof fn lemma_lunar_round_trip_two_years(cur: YearCalender, next: YearCalender, cal: YearCalender, d: LunarDate)
    requires
        cur.wf(),
        next.wf(),
        follows(cur, next),
        cal == cur || cal == next,
        cal.year == lookup_year(d),
        1 <= d.1 <= 12,
        1 <= d.2,
        d.3 == 0 || d.3 == 1,
        position_from(cal, wanted_code(d), 0) < 14,
        d.2 <= month_length(cal.hs@, position_from(cal, wanted_code(d), 0)),
    ensures
        ({
            let j = cal.hs[position_from(cal, wanted_code(d), 0)] + d.2 - 1;
            lunar_of_day(calendar_for(cur, next, j), j) == d
        }),
{
    let k = position_from(cal, wanted_code(d), 0);
    let j = cal.hs[k] + d.2 - 1;
    lemma_lunar_round_trip(cal, d);
    lemma_position_from(cal, wanted_code(d), 0);
    let o = calendar_for(cur, next, j);
    if o != cal {
        reveal(follows);
        lemma_month_at_bounds(cur, cur.zq[24] as int);
        assert(next.hs[0] <= next.zq[0]);
        if k + 1 < 14 {
            lemma_increasing_pairwise(cal.hs@, k + 1, 14);
        }
        if k > 0 {
            lemma_increasing_pairwise(cal.hs@, 0, k);
        }
        lemma_overlap_agrees(cur, next, j);
    }
}

} // verus!
