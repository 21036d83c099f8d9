use simon_robot::calibrate::Calibrator;
use simon_robot::classify::{COLOR_COUNT, Thresholds};

#[test]
fn provisional_thresholds_sit_at_half_range() {
    let thresholds = Thresholds::new();
    for color in 0..COLOR_COUNT {
        assert_eq!(thresholds.get(color), u8::MAX / 2);
    }
}

#[test]
fn threshold_tracks_midpoint_on_alternating_stream() {
    let mut cal = Calibrator::new();
    let mut thresholds = Thresholds::new();

    // The very first sample gives degenerate extremes: min == max == 40.
    cal.record(&mut thresholds, 0, 40);
    assert_eq!(thresholds.get(0), 40 / 2 + 40 / 2);

    // From the second sample on, the stream alternates between the two
    // endpoints, and the threshold must equal their midpoint after every
    // single sample.
    let endpoints = [200u8, 40, 200, 40, 200, 40, 200];
    for &sample in endpoints.iter() {
        cal.record(&mut thresholds, 0, sample);
        assert_eq!(thresholds.get(0), 40 / 2 + 200 / 2);
    }
}

#[test]
fn threshold_self_corrects_as_wider_extremes_appear() {
    let mut cal = Calibrator::new();
    let mut thresholds = Thresholds::new();
    cal.record(&mut thresholds, 2, 100);
    assert_eq!(thresholds.get(2), 100);
    cal.record(&mut thresholds, 2, 120);
    assert_eq!(thresholds.get(2), 100 / 2 + 120 / 2);
    cal.record(&mut thresholds, 2, 20);
    assert_eq!(thresholds.get(2), 20 / 2 + 120 / 2);
    // A sample inside the known range moves nothing.
    cal.record(&mut thresholds, 2, 60);
    assert_eq!(thresholds.get(2), 20 / 2 + 120 / 2);
}

#[test]
fn calibrating_one_color_leaves_the_others_alone() {
    let mut cal = Calibrator::new();
    let mut thresholds = Thresholds::new();
    cal.record(&mut thresholds, 1, 10);
    cal.record(&mut thresholds, 1, 30);
    for color in 0..COLOR_COUNT {
        if color != 1 {
            assert_eq!(thresholds.get(color), u8::MAX / 2);
        }
    }
    assert_eq!(thresholds.get(1), 10 / 2 + 30 / 2);
}

#[test]
fn untoggled_light_converges_to_its_single_value() {
    // A color whose light never toggles keeps min == max, so its threshold
    // converges to that one observed value.
    let mut cal = Calibrator::new();
    let mut thresholds = Thresholds::new();
    for _ in 0..50 {
        cal.record(&mut thresholds, 3, 77);
        assert_eq!(thresholds.get(3), 77 / 2 + 77 / 2);
    }
}
