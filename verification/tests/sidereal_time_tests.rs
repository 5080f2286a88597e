use astrotime::date::Date;
use astrotime::sidereal_time::get_mean_sidereal_time_from_date;
use astrotime::RightAscension;

#[test]
fn test_mean_sidereal_time_1() {
    // Example 12.a p.88 from Meeus book 2nd edition
    let date = Date::new(1987, 4, 10_000_000);
    let mst = get_mean_sidereal_time_from_date(&date);
    let expected_ra = RightAscension::new(13, 10, 46_366_800);

    assert!(RightAscension::from_degrees(mst).approx_eq(&expected_ra));
}

#[test]
fn test_mean_sidereal_time_in_degrees() {
    // 197.693195 degrees at six decimal places
    let date = Date::new(1987, 4, 10_000_000);
    assert_eq!(get_mean_sidereal_time_from_date(&date), 197_693_195);
}

#[test]
fn test_mean_sidereal_time_stays_normalized() {
    let dates = [
        Date::new(-1000, 7, 12_500_000),
        Date::new(1582, 10, 15_000_000),
        Date::new(2022, 11, 8_000_000),
        Date::new(2999, 12, 31_000_000),
    ];
    for date in dates {
        let mst = get_mean_sidereal_time_from_date(&date);
        assert!(0 <= mst && mst < 360_000_000);
    }
}
