use astrotime::date::Date;
use astrotime::dynamical_time::delta_t;
use astrotime::AstroError;

#[test]
fn test_delta_t() {
    // From Meeus book 2nd edition, example 10.a p.78 - however the result is
    // rounded to the nearest integer because the calculation is using the
    // NASA polynomial functions to get an exact delta t.
    let date = Date::from_full_date(1977, 2, 18_000_000, 3, 37, 40_000_000);
    let dt = delta_t(&date).unwrap();
    assert_eq!(48, (dt + 500_000) / 1_000_000);
}

#[test]
fn test_lunar_eclipse_2022_11_08() {
    let date = Date::from_full_date(2022, 11, 8_000_000, 11, 0, 22_000_000);
    let dt = delta_t(&date).unwrap();
    assert_eq!(73, (dt + 500_000) / 1_000_000);
}

#[test]
fn test_delta_t_exact_fixed_point_values() {
    let dt_1977 = delta_t(&Date::new(1977, 2, 18_000_000)).unwrap();
    assert_eq!(dt_1977, 47_686_642);
    let dt_2022 = delta_t(&Date::new(2022, 11, 8_000_000)).unwrap();
    assert_eq!(dt_2022, 73_214_170);
}

#[test]
fn test_delta_t_refuses_the_model_gap() {
    assert_eq!(
        delta_t(&Date::new(2100, 6, 1_000_000)),
        Err(AstroError::UnsupportedYearRange)
    );
    assert_eq!(
        delta_t(&Date::new(2149, 12, 1_000_000)),
        Err(AstroError::UnsupportedYearRange)
    );
    assert!(delta_t(&Date::new(2099, 6, 1_000_000)).is_ok());
    assert!(delta_t(&Date::new(2150, 6, 1_000_000)).is_ok());
}

#[test]
fn test_delta_t_refuses_years_outside_the_model() {
    assert_eq!(
        delta_t(&Date::new(3000, 1, 1_000_000)),
        Err(AstroError::UnsupportedYearRange)
    );
    assert!(delta_t(&Date::new(2999, 12, 1_000_000)).is_ok());
    assert!(delta_t(&Date::new(-1999, 1, 1_000_000)).is_ok());
    assert_eq!(
        delta_t(&Date::new(-2000, 12, 1_000_000)),
        Err(AstroError::UnsupportedYearRange)
    );
}

#[test]
fn test_delta_t_switches_segments_at_year_minus_500() {
    // year -501 takes the long-term parabola (17211.723606 s for June),
    // year -500 the sixth-degree polynomial of the detailed record
    let before = delta_t(&Date::new(-501, 6, 1_000_000)).unwrap();
    assert_eq!(before, 17_211_723_606);
    let after = delta_t(&Date::new(-500, 6, 1_000_000)).unwrap();
    assert_eq!(after, 17_195_369_349);
}

#[test]
fn test_delta_t_outside_the_detailed_record() {
    // -20 + 32 u^2 with u = (-999.96 - 1820) / 100, to the nearest second
    let dt = delta_t(&Date::new(-1000, 1, 1_000_000)).unwrap();
    assert_eq!((dt + 500_000) / 1_000_000, 25427);
}
