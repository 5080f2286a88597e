use astrotime::{fit_degrees, DegMinSec, HoursMinSec, LongLatPosition};

#[test]
fn test_fit_degrees_keeps_angles_in_range() {
    assert_eq!(fit_degrees(5_000_000), 5_000_000);
    assert_eq!(fit_degrees(359_999_999), 359_999_999);
    assert_eq!(fit_degrees(360_000_000), 0);
    assert_eq!(fit_degrees(725_000_000), 5_000_000);
}

#[test]
fn test_fit_degrees_wraps_negative_angles_up() {
    assert_eq!(fit_degrees(-90_000_000), 270_000_000);
    assert_eq!(fit_degrees(-720_000_000), 0);
    assert_eq!(fit_degrees(-1), 359_999_999);
}

#[test]
fn test_hms_equality_is_tolerant_in_the_seconds() {
    let a = HoursMinSec::new(13, 10, 46_366_800);
    // 46.3668 and 46.3749 both round to 46.37 at two decimal places
    assert!(a.approx_eq(&HoursMinSec::new(13, 10, 46_374_900)));
    assert!(!a.approx_eq(&HoursMinSec::new(13, 10, 46_360_000)));
    assert!(!a.approx_eq(&HoursMinSec::new(13, 11, 46_366_800)));
}

#[test]
fn test_dms_equality_compares_the_sign_exactly() {
    let plus = DegMinSec {
        negative: false,
        degrees: 0,
        minutes: 30,
        seconds: 0,
    };
    let minus = DegMinSec {
        negative: true,
        degrees: 0,
        minutes: 30,
        seconds: 0,
    };
    assert!(!plus.approx_eq(&minus));
    assert!(minus.approx_eq(&minus));
}

#[test]
fn test_dms_new_splits_the_sign_from_the_magnitude() {
    let dms = DegMinSec::new(-28, 9, 44_080_000);
    assert!(dms.negative);
    assert_eq!(dms.degrees, 28);
    assert_eq!(dms.minutes, 9);
    assert_eq!(dms.seconds, 44_080_000);
}

#[test]
fn test_long_lat_position_holds_both_angles() {
    let position = LongLatPosition {
        long: DegMinSec::new(-3, 42, 9_000_000),
        lat: DegMinSec::new(40, 25, 0),
    };
    assert!(position.long.negative);
    assert_eq!(position.lat.degrees, 40);
}
