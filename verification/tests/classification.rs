use simon_robot::classify::{COLOR_COUNT, Thresholds, first_light_on, is_light_on};
use simon_robot::config::{pressed_position, rest_position, sensor_address};

#[test]
fn on_means_strictly_below_threshold() {
    let mut thresholds = Thresholds::new();
    thresholds.store(0, 100);
    assert!(is_light_on(&thresholds, 0, 0));
    assert!(is_light_on(&thresholds, 0, 99));
    // The boundary value itself reads as off.
    assert!(!is_light_on(&thresholds, 0, 100));
    assert!(!is_light_on(&thresholds, 0, 101));
    assert!(!is_light_on(&thresholds, 0, u8::MAX));
}

#[test]
fn zero_threshold_never_reads_on() {
    let mut thresholds = Thresholds::new();
    thresholds.store(2, 0);
    for reading in 0..=u8::MAX {
        assert!(!is_light_on(&thresholds, 2, reading));
    }
}

#[test]
fn every_reading_below_threshold_reads_on() {
    let mut thresholds = Thresholds::new();
    thresholds.store(1, u8::MAX);
    for reading in 0..u8::MAX {
        assert!(is_light_on(&thresholds, 1, reading));
    }
    assert!(!is_light_on(&thresholds, 1, u8::MAX));
}

#[test]
fn first_match_wins_when_two_lights_are_on() {
    // Scan order is red, green, yellow, blue. With red and yellow both on,
    // the scan must deterministically report red.
    let thresholds = Thresholds::new();
    let readings: Vec<u8> = vec![10, 200, 10, 200];
    assert_eq!(first_light_on(&thresholds, &readings), Some(0));
}

#[test]
fn scan_skips_leading_off_lights() {
    let thresholds = Thresholds::new();
    let readings: Vec<u8> = vec![200, 200, 10, 10];
    assert_eq!(first_light_on(&thresholds, &readings), Some(2));
}

#[test]
fn scan_reports_nothing_when_all_lights_are_off() {
    let thresholds = Thresholds::new();
    let readings: Vec<u8> = vec![200, 200, 200, 200];
    assert_eq!(first_light_on(&thresholds, &readings), None);
}

#[test]
fn sensor_addresses_match_the_wiring() {
    assert_eq!(sensor_address(0), 0x84);
    assert_eq!(sensor_address(1), 0xc4);
    assert_eq!(sensor_address(2), 0x94);
    assert_eq!(sensor_address(3), 0xd4);
}

#[test]
fn blue_servo_is_mounted_inverted() {
    for color in 0..COLOR_COUNT - 1 {
        assert_eq!(rest_position(color), 260);
        assert_eq!(pressed_position(color), 470);
    }
    assert_eq!(rest_position(3), 470);
    assert_eq!(pressed_position(3), 260);
}
