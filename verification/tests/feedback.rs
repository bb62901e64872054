use lightherder::config::{check_delays, check_reach, MAX_DELAY};
use lightherder::feedback::{bank_bytes, bank_fits, half_of, half_table, history, to_half, Shape};

fn from_half(h: u16) -> f32 {
    let sign = if h >> 15 == 1 { -1.0 } else { 1.0 };
    let exponent = ((h >> 10) & 0x1f) as i32;
    let mantissa = (h & 0x3ff) as f32 / 1024.0;
    match exponent {
        0 => sign * mantissa * 2f32.powi(-14),
        31 => f32::INFINITY,
        e => sign * (1.0 + mantissa) * 2f32.powi(e - 15),
    }
}

#[test]
fn every_channel_value_lands_on_the_nearest_half() {
    for v in 0u16..=255 {
        let want = v as f32 / 255.0;
        let bits = half_table()[v as usize];
        let error = (from_half(bits) - want).abs();
        for neighbour in [bits.wrapping_sub(1), bits + 1] {
            let theirs = (from_half(neighbour) - want).abs();
            assert!(error <= theirs, "{v}: {bits:#06x} is not the nearest half");
        }
    }
}

#[test]
fn the_ends_of_the_scale_are_exact() {
    assert_eq!(half_table()[0], 0x0000);
    assert_eq!(half_table()[255], 0x3c00);
    assert_eq!(from_half(half_table()[255]), 1.0);
}

#[test]
fn the_table_is_the_channel_one_by_one() {
    for v in 0..=255u8 {
        assert_eq!(half_table()[v as usize], half_of(v));
    }
    let mut halves = vec![7u16; 9];
    to_half(&[0, 255, 128], &mut halves);
    assert_eq!(halves, [0x0000, 0x3c00, half_of(128)]);
}

#[test]
fn a_bank_is_a_ring_of_every_monitor_and_the_inputs() {
    let rig = Shape { history: 2, monitors: 5 };
    assert_eq!(rig.layers(), 2 * 5 + 1);
    assert_eq!(bank_bytes(rig, (1920, 1080)), 11 * 1920 * 1080 * 8);
    let delayed = Shape { history: 5, monitors: 5 };
    assert_eq!(delayed.layers(), 5 * 5 + 1);
    assert_eq!(bank_bytes(delayed, (1920, 1080)), 26 * 1920 * 1080 * 8);
    assert_eq!(rig.seed(), 10);
    assert_eq!(rig.monitor(1, 3), 8);
    assert_eq!(delayed.back(1, 2), 4);
    assert_eq!(delayed.back(4, 0), 4);
}

#[test]
fn a_bank_past_the_cap_is_refused_and_the_4k_deployment_is_not() {
    let rig = Shape { history: 2, monitors: 5 };
    assert!(bank_fits(rig, (3840, 2160)).is_ok());
    let most = Shape { history: 32, monitors: 5 };
    assert_eq!(most.layers(), 161);
    let why = bank_fits(most, (1920, 1080)).unwrap_err();
    assert!(why.contains("161 bank layers") && why.contains("1920x1080"), "{why}");
    let eight = Shape { history: 10, monitors: 5 };
    assert_eq!(eight.layers(), 51);
    assert!(bank_fits(eight, (1920, 1080)).is_ok());
    let why = bank_fits(eight, (3840, 2160)).unwrap_err();
    assert!(
        why.contains("51 bank layers (10 frames of 5 monitors, and the seed)") && why.contains("2.0 GiB"),
        "{why}"
    );
    let deep = Shape { history: 60, monitors: 5 };
    let why = bank_fits(deep, (64, 64)).unwrap_err();
    assert!(why.contains("deeper than the 256 layers"), "{why}");
}

#[test]
fn the_ring_is_bought_by_the_reach_and_the_longest_hold() {
    // The frame being drawn, the one every camera reads, and one more per
    // frame of reach.
    assert_eq!(history(4, &[1, 1, 1]), 6);
    assert_eq!(history(0, &[1, 1, 1]), 2);
    assert_eq!(history(3, &[]), 5);
    // A camera that keeps each frame three passes holds it two past the
    // first, and the longest hold is the one the ring is sized for.
    assert_eq!(history(3, &[1, 3, 2]), 7);
    assert_eq!(Shape::of(4, &[1, 1, 1], 5), Shape { history: 6, monitors: 5 });
}

#[test]
fn a_reach_past_the_units_is_refused() {
    assert_eq!(check_reach(MAX_DELAY), Ok(()));
    assert_eq!(check_reach(0), Ok(()));
    let why = check_reach(MAX_DELAY + 1).unwrap_err();
    assert!(why.contains("reach 31"), "{why}");
    assert_eq!(why, "the delay units reach 31 frames; at most 30");
}

#[test]
fn a_delay_past_the_units_reach_is_refused() {
    let with = |reach: u32, delay: u32| (reach, [delay, 0, 0]);
    let (reach, delays) = with(MAX_DELAY, MAX_DELAY);
    assert!(check_delays(reach, &delays).is_ok());
    let (reach, delays) = with(MAX_DELAY + 1, 0);
    let why = check_delays(reach, &delays).unwrap_err();
    assert!(why.contains("reach 31"), "{why}");
    let (reach, delays) = with(3, 4);
    assert_eq!(check_delays(reach, &delays).unwrap_err(), "camera 0's delay is 4; it runs 0 to 3");
    // The ring the reach buys: the frame being drawn, the one every camera
    // reads, and one more per frame of reach.
    assert_eq!(history(4, &[1, 1, 1]), 6);
}

#[test]
fn the_first_camera_past_the_reach_is_the_one_named() {
    assert_eq!(check_delays(2, &[0, 5, 9]).unwrap_err(), "camera 1's delay is 5; it runs 0 to 2");
    // A camera past the reach is named before a reach past the units.
    assert_eq!(check_delays(40, &[41]).unwrap_err(), "camera 0's delay is 41; it runs 0 to 40");
    assert_eq!(check_delays(40, &[1]).unwrap_err(), "the delay units reach 40 frames; at most 30");
    assert_eq!(check_delays(2, &[]), Ok(()));
}
