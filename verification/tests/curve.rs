use omen_fan::curve::CurveError;
use omen_fan::curve::CurveTable;
use omen_fan::curve::FAN1_MAX_DUTY;
use omen_fan::curve::FAN2_MAX_DUTY;
use omen_fan::curve::scale_duty;

fn reference_bands() -> Vec<(u8, u8)> {
    vec![(40, 45), (46, 50), (51, 55), (56, 60), (61, 70), (71, 100)]
}

fn reference_percents() -> Vec<u8> {
    vec![10, 20, 40, 60, 80, 100]
}

#[test]
fn scale_duty_rounds_down() {
    assert_eq!(scale_duty(10, FAN1_MAX_DUTY), 5); // floor(5.5)
    assert_eq!(scale_duty(10, FAN2_MAX_DUTY), 5); // floor(5.7)
    assert_eq!(scale_duty(100, FAN1_MAX_DUTY), 55);
    assert_eq!(scale_duty(100, FAN2_MAX_DUTY), 57);
    assert_eq!(scale_duty(0, FAN1_MAX_DUTY), 0);
    assert_eq!(scale_duty(60, FAN2_MAX_DUTY), 34); // floor(34.2)
}

#[test]
fn from_config_builds_scaled_entries() {
    let t = CurveTable::from_config(&reference_bands(), &reference_percents()).unwrap();
    assert_eq!(t.len(), 6);
    let e0 = t.entry(0);
    assert_eq!((e0.low, e0.high, e0.duty_a, e0.duty_b), (40, 45, 5, 5));
    let e1 = t.entry(1);
    assert_eq!((e1.low, e1.high, e1.duty_a, e1.duty_b), (46, 50, 11, 11));
    let e3 = t.entry(3);
    assert_eq!((e3.low, e3.high, e3.duty_a, e3.duty_b), (56, 60, 33, 34));
    let e5 = t.entry(5);
    assert_eq!((e5.low, e5.high, e5.duty_a, e5.duty_b), (71, 100, 55, 57));
}

#[test]
fn from_config_rejects_empty_curve() {
    let r = CurveTable::from_config(&vec![], &vec![]);
    assert!(matches!(r, Err(CurveError::EmptyCurve)));
}

#[test]
fn from_config_rejects_length_mismatch() {
    let r = CurveTable::from_config(&reference_bands(), &vec![10, 20]);
    assert!(matches!(r, Err(CurveError::LengthMismatch)));
}

#[test]
fn from_config_rejects_unsorted_lows() {
    let r = CurveTable::from_config(&vec![(40, 45), (40, 50)], &vec![10, 20]);
    assert!(matches!(r, Err(CurveError::LowNotIncreasing)));
}

#[test]
fn from_config_rejects_percent_above_100() {
    let r = CurveTable::from_config(&vec![(40, 45), (46, 50)], &vec![10, 101]);
    assert!(matches!(r, Err(CurveError::PercentOutOfRange)));
}

#[test]
fn single_band_curve_is_accepted() {
    let t = CurveTable::from_config(&vec![(50, 60)], &vec![50]).unwrap();
    assert_eq!(t.len(), 1);
    let e = t.entry(0);
    assert_eq!((e.duty_a, e.duty_b), (27, 28)); // floor(27.5), floor(28.5)
}
