use lunisolar::julian::{days_of_month, from_day, jd2day, weekday};
use lunisolar::month::MonthCalender;

#[test]
fn epoch_is_day_zero() {
    assert_eq!(from_day(-4712, 1, 1), 0);
    assert_eq!(from_day(2000, 1, 1), 2451545);
    assert_eq!(jd2day(0), (-4712, 1, 1));
    assert_eq!(jd2day(2451545), (2000, 1, 1));
}

#[test]
fn gregorian_cutover_is_one_day() {
    let after = from_day(1582, 10, 15);
    let before = from_day(1582, 10, 4);
    assert_eq!(after - before, 1);
    assert_eq!(jd2day(before + 1), (1582, 10, 15));
    assert_eq!(jd2day(before), (1582, 10, 4));
}

#[test]
fn months_of_two_or_less_count_from_previous_year() {
    assert_eq!(from_day(2023, 1, 1), from_day(2022, 13, 1));
    assert_eq!(from_day(2023, 2, 1), from_day(2022, 14, 1));
}

#[test]
fn round_trip_sample_dates() {
    let dates = [
        (2023, 11, 29),
        (2024, 2, 29),
        (1900, 3, 1),
        (1600, 2, 29),
        (1500, 2, 29),
        (-500, 7, 15),
        (1582, 10, 31),
        (1582, 9, 30),
        (9999, 12, 31),
    ];
    for (y, m, d) in dates.iter() {
        assert_eq!(jd2day(from_day(*y, *m, *d)), (*y, *m, *d));
    }
}

#[test]
fn consecutive_days_are_consecutive_numbers() {
    assert_eq!(from_day(2023, 3, 1) - from_day(2023, 2, 28), 1);
    assert_eq!(from_day(2024, 3, 1) - from_day(2024, 2, 29), 1);
    assert_eq!(from_day(2024, 1, 1) - from_day(2023, 12, 31), 1);
}

#[test]
fn month_lengths() {
    assert_eq!(days_of_month(2023, 2), 28);
    assert_eq!(days_of_month(2024, 2), 29);
    assert_eq!(days_of_month(1900, 2), 28);
    assert_eq!(days_of_month(2000, 2), 29);
    assert_eq!(days_of_month(1500, 2), 29);
    assert_eq!(days_of_month(1582, 10), 21);
    assert_eq!(days_of_month(2023, 12), 31);
    assert_eq!(MonthCalender::days(2023, 11), 30);
}

#[test]
fn weekday_of_known_dates() {
    // 2000-01-01 was a Saturday, 2023-11-01 a Wednesday
    assert_eq!(weekday(from_day(2000, 1, 1)), 6);
    assert_eq!(weekday(from_day(2023, 11, 1)), 3);
}
