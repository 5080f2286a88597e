use astrotime::transform::{dec_to_deg, deg_to_dms, deg_to_ra, ra_to_deg};
use astrotime::{Declination, DegMinSec, RightAscension};

#[test]
fn test_ra_2h_30m_45s() {
    let ra = RightAscension::new(2, 30, 45_000_000);
    assert_eq!(ra_to_deg(&ra), 37_687_500);
}

#[test]
fn test_ra_23h_54m_21s() {
    // wraps onto the signed range: -1.4125 degrees
    let ra = RightAscension::new(23, 54, 21_000_000);
    assert_eq!(ra_to_deg(&ra), -1_412_500);
}

#[test]
fn test_dec_57_11_12() {
    // 57.186666... degrees; rounded (half down) to four decimal places it
    // is 57.1867
    let dec = Declination::new(57, 11, 12_000_000);
    let deg = dec_to_deg(&dec);
    assert_eq!((deg + 49) / 100, 571_867);
}

#[test]
fn test_dec_min_81_7_59() {
    // -81.133055... degrees; rounded (half down) to four decimal places it
    // is -81.1331
    let dec = Declination::new(-81, 7, 59_000_000);
    let deg = dec_to_deg(&dec);
    assert!(deg < 0);
    assert_eq!((-deg + 49) / 100, 811_331);
}

#[test]
fn test_89_6078d_to89d_36m_28s() {
    let test_dms = DegMinSec::new(89, 36, 28_080_000);
    assert!(deg_to_dms(89_607_800).approx_eq(&test_dms));
}

#[test]
fn test_minus_59_1936d_to89d_36m_28s() {
    let test_dms = DegMinSec::new(-59, 11, 36_960_000);
    assert!(deg_to_dms(-59_193_600).approx_eq(&test_dms));
}

#[test]
fn test_dms_created_correctly_from_deg() {
    // 28.8103 degrees is 28 degrees 48' 37.08''
    let dec = Declination::from_degrees(28_810_300);
    assert!(dec.approx_eq(&Declination::new(28, 48, 37_080_000)));
}

#[test]
fn test_deg_to_ra_splits_exactly() {
    let ra = deg_to_ra(197_693_195);
    assert_eq!(ra.hours, 13);
    assert_eq!(ra.minutes, 10);
    assert_eq!(ra.seconds, 46_366_800);
}

#[test]
fn test_dec_deg_round_trip_is_exact_away_from_carries() {
    for deg in [45_123_456i64, -12_345_678, 89_607_800, -59_193_600, 1] {
        let dms = deg_to_dms(deg);
        assert_eq!(dec_to_deg(&dms), deg);
    }
}

#[test]
fn test_deg_to_dms_carries_seconds_into_minutes() {
    // 10.499999 degrees: 29' 59.9964'' displays as 60.00'', so it carries
    let dms = deg_to_dms(10_499_999);
    assert!(!dms.negative);
    assert_eq!(dms.degrees, 10);
    assert_eq!(dms.minutes, 30);
    assert_eq!(dms.seconds, 0);
}

#[test]
fn test_deg_to_dms_carries_minutes_into_degrees() {
    // 59.999999 degrees: the seconds carry makes 60 minutes, which carries
    // into a whole degree
    let dms = deg_to_dms(59_999_999);
    assert!(!dms.negative);
    assert_eq!(dms.degrees, 60);
    assert_eq!(dms.minutes, 0);
    assert_eq!(dms.seconds, 0);
}

#[test]
fn test_deg_to_dms_keeps_the_sign_of_small_negative_angles() {
    let dms = deg_to_dms(-500_000);
    assert!(dms.negative);
    assert_eq!(dms.degrees, 0);
    assert_eq!(dms.minutes, 30);
    assert_eq!(dms.seconds, 0);
}
