use lunisolar::calendar::{CalendarEvent, MonthCode, YearCalender};
use lunisolar::dates::{CalendarError, LunarDate, SolorDate};
use lunisolar::ganzhi::GanZhi;
use lunisolar::julian::from_day;
use lunisolar::month::MonthCalender;

fn days(dates: &[(i32, i32, i32)]) -> Vec<i32> {
    dates.iter().map(|&(y, m, d)| from_day(y, m, d)).collect()
}

/// The calendar year closing at the winter solstice of 2023 (Beijing time).
fn year_2023() -> YearCalender {
    let zq = days(&[
        (2022, 12, 22),
        (2023, 1, 5),
        (2023, 1, 20),
        (2023, 2, 4),
        (2023, 2, 19),
        (2023, 3, 6),
        (2023, 3, 21),
        (2023, 4, 5),
        (2023, 4, 20),
        (2023, 5, 6),
        (2023, 5, 21),
        (2023, 6, 6),
        (2023, 6, 21),
        (2023, 7, 7),
        (2023, 7, 23),
        (2023, 8, 8),
        (2023, 8, 23),
        (2023, 9, 8),
        (2023, 9, 23),
        (2023, 10, 8),
        (2023, 10, 24),
        (2023, 11, 8),
        (2023, 11, 22),
        (2023, 12, 7),
        (2023, 12, 22),
    ]);
    let hs = days(&[
        (2022, 11, 24),
        (2022, 12, 23),
        (2023, 1, 22),
        (2023, 2, 20),
        (2023, 3, 22),
        (2023, 4, 20),
        (2023, 5, 19),
        (2023, 6, 18),
        (2023, 7, 18),
        (2023, 8, 16),
        (2023, 9, 15),
        (2023, 10, 15),
        (2023, 11, 13),
        (2023, 12, 13),
        (2024, 1, 11),
    ]);
    YearCalender::new(
        2023,
        from_day(2022, 11, 22),
        from_day(2022, 12, 7),
        zq.try_into().unwrap(),
        hs.try_into().unwrap(),
    )
    .unwrap()
}

/// The calendar year closing at the winter solstice of 2024 (Beijing time).
fn year_2024() -> YearCalender {
    let zq = days(&[
        (2023, 12, 22),
        (2024, 1, 6),
        (2024, 1, 20),
        (2024, 2, 4),
        (2024, 2, 19),
        (2024, 3, 5),
        (2024, 3, 20),
        (2024, 4, 4),
        (2024, 4, 19),
        (2024, 5, 5),
        (2024, 5, 20),
        (2024, 6, 5),
        (2024, 6, 21),
        (2024, 7, 6),
        (2024, 7, 22),
        (2024, 8, 7),
        (2024, 8, 22),
        (2024, 9, 7),
        (2024, 9, 22),
        (2024, 10, 8),
        (2024, 10, 23),
        (2024, 11, 7),
        (2024, 11, 22),
        (2024, 12, 6),
        (2024, 12, 21),
    ]);
    let hs = days(&[
        (2023, 12, 13),
        (2024, 1, 11),
        (2024, 2, 10),
        (2024, 3, 10),
        (2024, 4, 9),
        (2024, 5, 8),
        (2024, 6, 6),
        (2024, 7, 6),
        (2024, 8, 4),
        (2024, 9, 3),
        (2024, 10, 3),
        (2024, 11, 1),
        (2024, 12, 1),
        (2024, 12, 31),
        (2025, 1, 29),
    ]);
    YearCalender::new(
        2024,
        from_day(2023, 11, 22),
        from_day(2023, 12, 7),
        zq.try_into().unwrap(),
        hs.try_into().unwrap(),
    )
    .unwrap()
}

#[test]
fn leap_month_of_2023_is_the_second() {
    let c = year_2023();
    assert_eq!(c.lunar_leap, 4);
    assert_eq!(c.lunar_month[4], MonthCode { month: 3, leap: true });
    assert_eq!(c.lunar_month[3], MonthCode { month: 3, leap: false });
    assert_eq!(c.lunar_month.iter().filter(|m| m.leap).count(), 1);
    assert_eq!(c.nth_month(4), (2023, 2, 1, 29));
    assert_eq!(c.nth_month(0), (2022, 11, 0, 29));
    assert_eq!(c.nth_month(2), (2023, 1, 0, 29));
    assert_eq!(c.nth_month(13), (2023, 11, 0, 29));
}

#[test]
fn year_without_leap_month() {
    let c = year_2024();
    assert_eq!(c.lunar_leap, 0);
    assert!(c.lunar_month.iter().all(|m| !m.leap));
    assert_eq!(c.nth_month(12), (2024, 11, 0, 30));
    assert_eq!(c.nth_month(13), (2024, 12, 0, 29));
    // the 15th new moon opens the first month of the next year
    assert_eq!(c.nth_month(14), (2025, 1, 0, 0));
}

#[test]
fn terms_counted_from_pe2() {
    let c = year_2023();
    assert_eq!(c.nth_q24(0), from_day(2022, 11, 22));
    assert_eq!(c.nth_q24(1), from_day(2022, 12, 7));
    assert_eq!(c.nth_q24(2), from_day(2022, 12, 22));
    assert_eq!(c.nth_q24(26), from_day(2023, 12, 22));
}

#[test]
fn unordered_instants_are_refused() {
    let c = year_2023();
    let mut zq = c.zq;
    zq.swap(3, 4);
    assert!(YearCalender::new(2023, c.pe2, c.pe1, zq, c.hs).is_none());
    let mut hs = c.hs;
    hs[7] = hs[6];
    assert!(YearCalender::new(2023, c.pe2, c.pe1, c.zq, hs).is_none());
    assert!(YearCalender::new(2023, c.pe1, c.pe2, c.zq, c.hs).is_none());
    assert!(YearCalender::new(2023, c.pe2, c.pe1, c.zq, c.hs).is_some());
}

#[test]
fn calendar_for_a_date() {
    let a = YearCalender::from_date(year_2023(), year_2024(), 12, 22);
    assert_eq!(a.year, 2023);
    let b = YearCalender::from_date(year_2023(), year_2024(), 12, 23);
    assert_eq!(b.year, 2024);
}

#[test]
fn test_convert_to_solor() {
    let a = LunarDate(2023, 10, 17, 0);
    assert_eq!(a.to_solor_date(&year_2023()), Ok(SolorDate(2023, 11, 29)));
}

#[test]
fn lunar_to_solar_in_leap_month_and_next_year() {
    assert_eq!(LunarDate(2023, 2, 1, 1).to_solor_date(&year_2023()), Ok(SolorDate(2023, 3, 22)));
    assert_eq!(LunarDate(2023, 2, 1, 0).to_solor_date(&year_2023()), Ok(SolorDate(2023, 2, 20)));
    // the eleventh month of 2023 is looked up in the calendar closing in 2024
    assert_eq!(LunarDate(2023, 11, 1, 0).to_solor_date(&year_2024()), Ok(SolorDate(2023, 12, 13)));
}

#[test]
fn missing_leap_month_is_an_error() {
    assert_eq!(
        LunarDate(2023, 5, 1, 1).to_solor_date(&year_2023()),
        Err(CalendarError::InvalidMonthCode)
    );
}

#[test]
fn solar_to_lunar() {
    let c23 = year_2023();
    let c24 = year_2024();
    assert_eq!(SolorDate(2023, 11, 29).to_lunar_date(&c23, &c24), LunarDate(2023, 10, 17, 0));
    // a new moon day is the first of its month
    assert_eq!(SolorDate(2023, 3, 22).to_lunar_date(&c23, &c24), LunarDate(2023, 2, 1, 1));
    assert_eq!(SolorDate(2023, 1, 22).to_lunar_date(&c23, &c24), LunarDate(2023, 1, 1, 0));
    assert_eq!(SolorDate(2023, 1, 21).to_lunar_date(&c23, &c24), LunarDate(2022, 12, 30, 0));
    // after the winter solstice the next calendar year holds the day
    assert_eq!(SolorDate(2023, 12, 25).to_lunar_date_(&c23, &c24), (LunarDate(2023, 11, 13, 0), 0));
}

#[test]
fn lunar_round_trip() {
    let c23 = year_2023();
    let c24 = year_2024();
    for &(m, d, leap) in [(1, 1, 0), (2, 15, 1), (6, 29, 0), (10, 17, 0)].iter() {
        let l = LunarDate(2023, m, d, leap);
        let s = l.to_solor_date(&c23).unwrap();
        assert_eq!(s.to_lunar_date(&c23, &c24), l);
    }
}

#[test]
fn lunar_round_trip_across_calendar_years() {
    let c23 = year_2023();
    let c24 = year_2024();
    // the eleventh month of 2023 is looked up in the calendar closing in 2024,
    // but its first days lie before the solstice that closes 2023
    for d in 1..=29 {
        let l = LunarDate(2023, 11, d, 0);
        let s = l.to_solor_date(&c24).unwrap();
        assert_eq!(s.to_lunar_date(&c23, &c24), l);
    }
}

#[test]
fn test_sizhu() {
    let d = SolorDate(2023, 11, 11);
    let sz = d.sizhu(&year_2023(), &year_2024(), 720, false);
    assert_eq!(sz, (GanZhi(9, 3), GanZhi(9, 11), GanZhi(9, 9), GanZhi(4, 6)));
    assert_eq!(sz.0.name(), "癸卯");
    assert_eq!(sz.1.name(), "癸亥");
    assert_eq!(sz.2.name(), "癸酉");
    assert_eq!(sz.3.name(), "戊午");
}

#[test]
fn sizhu_late_hour_and_pending_term() {
    let c23 = year_2023();
    let c24 = year_2024();
    let late = SolorDate(2023, 11, 11).sizhu(&c23, &c24, 1400, false);
    assert_eq!(late.2, GanZhi(0, 10));
    assert_eq!(late.3, GanZhi(0, 0));
    // on the day of the beginning of winter, before its instant
    let early = SolorDate(2023, 11, 8).sizhu(&c23, &c24, 60, true);
    assert_eq!(early.1, GanZhi(8, 10));
    let after = SolorDate(2023, 11, 8).sizhu(&c23, &c24, 1200, false);
    assert_eq!(after.1, GanZhi(9, 11));
    // before the beginning of spring the year is still the previous one
    let jan = SolorDate(2023, 1, 10).sizhu(&c23, &c24, 720, false);
    assert_eq!(jan.0, GanZhi(8, 2));
}

#[test]
fn previous_and_next_terms() {
    let c23 = year_2023();
    let c24 = year_2024();
    let d = SolorDate(2023, 11, 11);
    assert_eq!(d.jq24(&c23, &c24, 1, 0), Some((from_day(2023, 11, 8), 23)));
    assert_eq!(d.jq24(&c23, &c24, 0, 0), Some((from_day(2023, 10, 24), 22)));
    assert_eq!(d.jq24(&c23, &c24, 1, 1), Some((from_day(2023, 12, 7), 25)));
    assert_eq!(d.jq24(&c23, &c24, 0, 1), Some((from_day(2023, 11, 22), 24)));
    let late = SolorDate(2023, 12, 10);
    assert_eq!(late.jq24(&c23, &c24, 1, 1), None);
    // on the winter solstice the next calendar's terms are read
    let solstice = SolorDate(2023, 12, 22);
    assert_eq!(solstice.jq24(&c23, &c24, 0, 0), Some((from_day(2023, 12, 22), 2)));
}

#[test]
fn month_of_november_2023() {
    let mut m = MonthCalender::new(2023, 11, year_2023(), year_2024());
    assert_eq!(m.lunnar_date, LunarDate(2023, 9, 18, 0));
    let r = m.get_lunars();
    assert_eq!(r.len(), 30);
    assert_eq!(r[0].week, 3);
    assert_eq!(r[0].date_gz, GanZhi(9, 11));
    assert_eq!(r[0].month_gz, GanZhi(8, 10));
    assert_eq!(r[7].jq24, 23);
    assert_eq!(r[7].month_gz, GanZhi(9, 11));
    assert_eq!(r[10].date_gz, GanZhi(9, 9));
    assert_eq!(r[11].lunar, LunarDate(2023, 9, 29, 0));
    assert_eq!(r[12].lunar, LunarDate(2023, 10, 1, 0));
    assert_eq!(r[21].jq24, 24);
    assert_eq!(r[28].lunar, LunarDate(2023, 10, 17, 0));
    assert_eq!(r.iter().filter(|d| d.jq24 >= 0).count(), 2);
    assert_eq!(m.year_cal.year, 2023);
}

#[test]
fn month_crossing_the_winter_solstice() {
    let mut m = MonthCalender::new(2023, 12, year_2023(), year_2024());
    let r = m.get_lunars();
    assert_eq!(r.len(), 31);
    assert_eq!(r[6].jq24, 25);
    assert_eq!(r[12].lunar, LunarDate(2023, 11, 1, 0));
    assert_eq!(r[21].jq24, 26);
    assert_eq!(r[30].lunar, LunarDate(2023, 11, 19, 0));
    assert_eq!(r[30].day, 31);
    assert_eq!(m.year_cal.year, 2024);
}

#[test]
fn events_in_day_order() {
    let c = year_2023();
    let e = c.events();
    assert_eq!(e.len(), 37);
    assert_eq!(e[0], CalendarEvent::NewMoon(0));
    assert_eq!(e[1], CalendarEvent::Term(0));
    assert_eq!(e[2], CalendarEvent::NewMoon(1));
    assert_eq!(e[3], CalendarEvent::Term(1));
    assert_eq!(e[4], CalendarEvent::Term(2));
    assert_eq!(e[5], CalendarEvent::NewMoon(2));
    // the second new moon of April and the grain-rain term share a day
    let i = e.iter().position(|x| *x == CalendarEvent::NewMoon(5)).unwrap();
    assert_eq!(e[i + 1], CalendarEvent::Term(8));
    assert_eq!(e[36], CalendarEvent::Term(23));
    assert_eq!(year_2024().events().len(), 36);
}

/// Moves every solar term (and the two before the first solstice) `by` days.
fn shift_terms(c: YearCalender, by: i32) -> YearCalender {
    let mut zq = c.zq;
    for z in zq.iter_mut() {
        *z += by;
    }
    YearCalender::new(c.year, c.pe2 + by, c.pe1 + by, zq, c.hs).unwrap()
}

#[test]
fn new_moon_on_the_winter_solstice_opens_a_month() {
    // terms moved so that the closing solstice of 2023 falls on the new moon of 2023-12-13
    let cur = shift_terms(year_2023(), -9);
    let next = shift_terms(year_2024(), -9);
    let mut m = MonthCalender::new(2023, 12, cur, next);
    let r = m.get_lunars();
    assert_eq!(r[0].lunar, LunarDate(2023, 10, 19, 0));
    assert_eq!(r[12].jq24, 26);
    assert_eq!(r[12].lunar, LunarDate(2023, 11, 1, 0));
    assert_eq!(r[13].lunar, LunarDate(2023, 11, 2, 0));
    assert_eq!(r[13].jq24, -1);
    // the first term after the solstice is found in the next calendar year
    assert_eq!(r[27].jq24, 3);
    assert_eq!(r[27].month_gz, r[26].month_gz.inc());
    assert_eq!(r[30].lunar, LunarDate(2023, 11, 19, 0));
    assert_eq!(m.year_cal.year, 2024);
    for (i, d) in r.iter().enumerate() {
        let s = SolorDate(2023, 12, i as i32 + 1);
        assert_eq!(d.lunar, s.to_lunar_date(&cur, &next));
    }
}

#[test]
fn every_day_matches_the_direct_conversion() {
    let c23 = year_2023();
    let c24 = year_2024();
    for month in 1..=12 {
        let mut m = MonthCalender::new(2023, month, c23, c24);
        let r = m.get_lunars();
        for (i, d) in r.iter().enumerate() {
            let s = SolorDate(2023, month, i as i32 + 1);
            assert_eq!(d.lunar, s.to_lunar_date(&c23, &c24));
            assert!(d.lunar.2 >= 1 && d.lunar.2 <= 30);
        }
    }
}

#[test]
fn sizhu_year_changes_at_beginning_of_spring() {
    let c23 = year_2023();
    let c24 = year_2024();
    let after = SolorDate(2023, 2, 10).sizhu(&c23, &c24, 720, false);
    assert_eq!(after.0, GanZhi(9, 3));
    assert_eq!(after.1, GanZhi(0, 2));
    let spring = SolorDate(2023, 2, 4).sizhu(&c23, &c24, 720, false);
    assert_eq!(spring.0, GanZhi(9, 3));
    let before = SolorDate(2023, 2, 3).sizhu(&c23, &c24, 720, false);
    assert_eq!(before.0, GanZhi(8, 2));
    assert_eq!(before.1, GanZhi(9, 1));
}

#[test]
fn impossible_years_are_refused() {
    let c = year_2023();
    // a month of more than 30 days
    let mut hs = c.hs;
    hs[5] = hs[6] - 1;
    hs[4] = hs[5] - 31;
    assert!(YearCalender::new(2023, c.pe2, c.pe1, c.zq, hs).is_none());
    // a first month that does not hold the winter solstice
    let mut zq = c.zq;
    zq[0] = c.hs[1];
    assert!(YearCalender::new(2023, c.pe2, c.pe1, zq, c.hs).is_none());
}

/// The calendar `c` moved by `by` days and renamed as year `year`.
fn shift_all(c: YearCalender, year: i32, by: i32) -> YearCalender {
    let mut zq = c.zq;
    for z in zq.iter_mut() {
        *z += by;
    }
    let mut hs = c.hs;
    for h in hs.iter_mut() {
        *h += by;
    }
    YearCalender::new(year, c.pe2 + by, c.pe1 + by, zq, hs).unwrap()
}

#[test]
fn october_1582_skips_ten_days() {
    // the 2023 and 2024 calendars moved so that their 2023-10-01 falls on 1582-10-01
    let by = from_day(1582, 10, 1) - from_day(2023, 10, 1);
    let cur = shift_all(year_2023(), 1582, by);
    let next = shift_all(year_2024(), 1583, by);
    let mut m = MonthCalender::new(1582, 10, cur, next);
    let r = m.get_lunars();
    assert_eq!(r.len(), 21);
    assert_eq!(r[3].day, 4);
    assert_eq!(r[4].day, 15);
    assert_eq!(r[20].day, 31);
    assert_eq!(r[4].date_gz, r[3].date_gz.inc());
    for (i, d) in r.iter().enumerate() {
        assert_eq!(from_day(1582, 10, d.day), m.firt_jd + i as i32);
    }
}

#[test]
fn sizhu_on_the_day_of_pe1() {
    let c23 = year_2023();
    let c24 = year_2024();
    let d = SolorDate(2022, 12, 7);
    // before the instant of the greater snow term the month is still the hai month
    let before = d.sizhu(&c23, &c24, 60, true);
    assert_eq!(before.0, GanZhi(8, 2));
    assert_eq!(before.1, GanZhi(7, 11));
    let after = d.sizhu(&c23, &c24, 1200, false);
    assert_eq!(after.1, GanZhi(8, 0));
}
