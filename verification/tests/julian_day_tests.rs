use astrotime::date::Date;
use astrotime::julian_day::{get_julian_day, JulianDay};
use astrotime::AstroError;

#[test]
fn test_sputnik_launch_date_to_julian_date() {
    let date = Date::new(1957, 10, 4_810_000);
    assert_eq!(2_436_116_310_000, get_julian_day(&date).unwrap());
}

#[test]
fn test_jd_0() {
    let date = Date::new(-4712, 1, 1_500_000);
    assert_eq!(0, get_julian_day(&date).unwrap());
}

#[test]
fn test_1999_1_1() {
    let date = Date::new(1999, 1, 1_000_000);
    assert_eq!(2_451_179_500_000, get_julian_day(&date).unwrap());
}

#[test]
fn test_1600_12_31() {
    let date = Date::new(1600, 12, 31_000_000);
    assert_eq!(2_305_812_500_000, get_julian_day(&date).unwrap());
}

#[test]
fn test_minus_1000_7_12_dot_5() {
    let date = Date::new(-1000, 7, 12_500_000);
    assert_eq!(1_356_001_000_000, get_julian_day(&date).unwrap());
}

#[test]
fn test_whole_jd_to_calendar_date() {
    // 2459581 is 2022-01-01 12:00:00 UTC
    let jd = JulianDay::new(2_459_581_000_000);
    let date = jd.to_calendar_date();
    assert_eq!(date.year, 2022);
    assert_eq!(date.month, 1);
    assert_eq!(date.day, 1_500_000);
}

#[test]
fn test_fractional_jd_to_calendar_date() {
    // From Meeus book "astronomical algorithms" p. 64 example 7.c
    // 2436116.31 is October 4.81, 1957
    let jd = JulianDay::new(2_436_116_310_000);
    let date = jd.to_calendar_date();
    assert_eq!(date.year, 1957);
    assert_eq!(date.month, 10);
    // the day rounded (half up) to two decimal places is 4.81
    assert_eq!((date.day + 5000) / 10_000, 481);
}

#[test]
fn test_more_jd_to_calendar_date() {
    // From Meeus book "astronomical algorithms" p. 64 excercises
    let jd1 = JulianDay::new(1_842_713_000_000);
    let date1 = jd1.to_calendar_date();
    assert_eq!(date1.year, 333);
    assert_eq!(date1.month, 1);
    assert_eq!((date1.day + 5000) / 10_000, 2750);

    let jd2 = JulianDay::new(1_507_900_130_000);
    let date2 = jd2.to_calendar_date();
    assert_eq!(date2.year, -584);
    assert_eq!(date2.month, 5);
    assert_eq!((date2.day + 5000) / 10_000, 2863);
}

#[test]
fn test_jd_to_modified_jd() {
    let jd = JulianDay::new(2_436_116_310_000);
    assert_eq!(jd.get_value() - 2_400_000_500_000, jd.to_modified_jd());
}

#[test]
fn test_jd_equality() {
    assert_eq!(JulianDay::new(2_436_116_310_000), JulianDay::new(2_436_116_310_000));
    assert_eq!(JulianDay::new(2_000_000_000) > JulianDay::new(1_000_000_000), true);
    assert_eq!(
        JulianDay::new(139_164_000_000) < JulianDay::new(2_451_911_000_000),
        true
    );
}

#[test]
fn test_invalid_month_is_refused() {
    assert_eq!(
        get_julian_day(&Date::new(2000, 13, 1_000_000)),
        Err(AstroError::InvalidMonth)
    );
    assert_eq!(
        get_julian_day(&Date::new(2000, 0, 1_000_000)),
        Err(AstroError::InvalidMonth)
    );
}

#[test]
fn test_round_trip_spans_both_calendars() {
    // year and month come back exactly, the day to well within 0.01
    let cases = [
        (2022i16, 1u8, 1_500_000i64),
        (1957, 10, 4_810_000),
        (1600, 12, 31_000_000),
        (1582, 10, 3_000_000),
        (1582, 10, 15_000_000),
        (333, 1, 27_500_000),
        (-584, 5, 28_630_000),
        (-4712, 1, 1_500_000),
    ];
    for (year, month, day) in cases {
        let date = Date::new(year, month, day);
        let back = date.to_julian_day().to_calendar_date();
        assert_eq!(back.year, year);
        assert_eq!(back.month, month);
        assert!((back.day - day).abs() <= 10_000);
    }
}

#[test]
fn test_reform_days_alias_dates_ten_days_earlier() {
    // The forward conversion reads October 1582 from day 4.0 on as already
    // Gregorian, so the removed days come back shifted by the reform's ten
    // days.
    let date = Date::new(1582, 10, 14_000_000);
    let back = date.to_julian_day().to_calendar_date();
    assert_eq!(back.year, 1582);
    assert_eq!(back.month, 10);
    assert_eq!(back.day, 4_000_000);
}

#[test]
fn test_chronological_dates_give_increasing_julian_days() {
    // chronologically ordered dates, crossing the Gregorian reform
    let dates = [
        Date::new(-4712, 1, 1_500_000),
        Date::new(-1000, 7, 12_500_000),
        Date::new(333, 1, 27_500_000),
        Date::new(1582, 9, 30_000_000),
        Date::new(1582, 10, 3_999_999),
        Date::new(1582, 10, 14_000_000),
        Date::new(1582, 11, 1_000_000),
        Date::new(1600, 2, 29_000_000),
        Date::new(1600, 3, 1_000_000),
        Date::new(1910, 4, 20_000_000),
        Date::new(1986, 2, 9_000_000),
    ];
    for pair in dates.windows(2) {
        assert!(pair[0].to_julian_day() < pair[1].to_julian_day());
    }
}
