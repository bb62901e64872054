use lightherder::tempo::{Clock, BACKLOG};

const SECOND: u64 = 1_000_000_000;

struct Ran {
    passes: u32,
    presents: u32,
    biggest: u32,
}

/// One pass at `rate` passes a second, to the nearest nanosecond.
fn beat(rate: u64) -> u64 {
    (SECOND + rate / 2) / rate
}

fn a_second_on(clock: &mut Clock, grid: f64) -> Ran {
    let start = clock.due();
    let slot = (SECOND as f64 / grid) as u64;
    let mut ran = Ran { passes: 0, presents: 0, biggest: 0 };
    let mut now = start;
    while now - start < SECOND {
        let batch = clock.take_due(now);
        ran.passes += batch;
        ran.biggest = ran.biggest.max(batch);
        ran.presents += 1;
        let slots = (now - start) / slot + 1;
        now = start + slot * slots;
    }
    ran
}

#[test]
fn tempo_an_on_time_pass_owes_one_beat() {
    let start = 5 * SECOND;
    let mut clock = Clock::new(beat(60), start);
    let beat = clock.beat();
    assert_eq!(clock.take_due(start), 1);
    assert_eq!(clock.take_due(start + beat / 2), 0);
    assert_eq!(clock.take_due(start + beat), 1);
    assert_eq!(clock.due(), start + beat * 2);
}

#[test]
fn tempo_a_stall_runs_what_it_missed_and_drops_what_is_past_the_backlog() {
    let start = 5 * SECOND;
    let mut clock = Clock::new(beat(60), start);
    let beat = clock.beat();
    assert_eq!(clock.take_due(start + beat * 3 + beat / 2), 4);

    let mut clock = Clock::new(beat, start);
    let stalled = start + SECOND;
    let owed = clock.take_due(stalled);
    let bound = (BACKLOG as f64 / SECOND as f64 * 60.0).ceil() as u32 + 1;
    assert!((2..=bound).contains(&owed), "{owed} passes for a second gone");
    assert!(clock.due() > stalled, "the clock is still behind");
}

#[test]
fn tempo_a_slower_grid_still_gets_sixty_passes_a_second() {
    let ran = a_second_on(&mut Clock::new(beat(60), SECOND), 41.0);
    assert_eq!(ran.passes, 60);
    assert!(ran.presents.abs_diff(41) <= 1, "{} presents", ran.presents);
    assert!(ran.biggest <= 2, "{} passes to one present", ran.biggest);
}

#[test]
fn tempo_a_faster_grid_still_gets_sixty_passes_a_second() {
    let ran = a_second_on(&mut Clock::new(beat(60), SECOND), 72.0);
    assert_eq!(ran.passes, 60);
    assert!(ran.presents.abs_diff(72) <= 1, "{} presents", ran.presents);
    assert_eq!(ran.biggest, 1, "a pass ran twice inside one frame");
}

#[test]
fn a_slow_tempo_still_presents_at_the_grid() {
    let ran = a_second_on(&mut Clock::new(beat(1), SECOND), 60.0);
    assert!(ran.presents.abs_diff(60) <= 1, "{} presents", ran.presents);
    assert_eq!(ran.passes, 1);
}

#[test]
fn a_tempo_over_the_grid_runs_several_passes_to_a_present() {
    let ran = a_second_on(&mut Clock::new(beat(240), SECOND), 60.0);
    assert_eq!(ran.biggest, 4);
    assert!(ran.passes.abs_diff(240) <= ran.biggest, "{} passes", ran.passes);
    assert!(ran.presents.abs_diff(60) <= 1, "{} presents", ran.presents);
}

#[test]
fn a_grid_far_under_the_tempo_keeps_the_tempo_anyway() {
    let ran = a_second_on(&mut Clock::new(beat(60), SECOND), 15.0);
    assert!(ran.presents.abs_diff(15) <= 1, "{} presents", ran.presents);
    assert_eq!(ran.biggest, 4);
    assert!(ran.passes.abs_diff(60) <= ran.biggest, "{} passes", ran.passes);
}

#[test]
fn speeding_up_is_heard_on_the_press() {
    let now = SECOND;
    let mut clock = Clock::new(SECOND, now);
    assert_eq!(clock.take_due(now), 1);
    assert_eq!(clock.due(), now + SECOND);
    clock.retime(SECOND / 2, now);
    assert_eq!(clock.due(), now + SECOND / 2);
    let standing = clock.due();
    clock.retime(SECOND, now);
    assert_eq!(clock.due(), standing);
}

/// The display's own clock: sixty a second, whatever the tempo.
const RATE: u64 = 60;

#[test]
fn clock_an_on_time_pass_owes_one_beat() {
    let start = 5 * SECOND;
    let mut clock = Clock::new(beat(RATE), start);
    let beat = clock.beat();
    assert_eq!(clock.take_due(start), 1);
    assert_eq!(clock.take_due(start + beat / 2), 0);
    assert_eq!(clock.take_due(start + beat), 1);
    assert_eq!(clock.due(), start + beat * 2);
}

#[test]
fn clock_a_stall_runs_what_it_missed_and_drops_what_is_past_the_backlog() {
    let start = 5 * SECOND;
    let mut clock = Clock::new(beat(RATE), start);
    let beat = clock.beat();
    assert_eq!(clock.take_due(start + beat * 3 + beat / 2), 4);

    let mut clock = Clock::new(beat, start);
    let stalled = start + SECOND;
    let owed = clock.take_due(stalled);
    let bound = (BACKLOG as f64 / SECOND as f64 * 60.0).ceil() as u32 + 1;
    assert!((2..=bound).contains(&owed), "{owed} passes for a second gone");
    assert!(clock.due() > stalled, "the clock is still behind");
}

#[test]
fn clock_a_slower_grid_still_gets_sixty_passes_a_second() {
    let ran = a_second_on(&mut Clock::new(beat(RATE), SECOND), 41.0);
    assert_eq!(ran.passes, 60);
    assert!(ran.presents.abs_diff(41) <= 1, "{} presents", ran.presents);
    assert!(ran.biggest <= 2, "{} passes to one present", ran.biggest);
}

#[test]
fn clock_a_faster_grid_still_gets_sixty_passes_a_second() {
    let ran = a_second_on(&mut Clock::new(beat(RATE), SECOND), 72.0);
    assert_eq!(ran.passes, 60);
    assert!(ran.presents.abs_diff(72) <= 1, "{} presents", ran.presents);
    assert_eq!(ran.biggest, 1, "a pass ran twice inside one frame");
}

#[test]
fn a_grid_far_under_sixty_keeps_sixty_anyway() {
    let ran = a_second_on(&mut Clock::new(beat(RATE), SECOND), 15.0);
    assert!(ran.presents.abs_diff(15) <= 1, "{} presents", ran.presents);
    assert_eq!(ran.biggest, 4);
    assert!(ran.passes.abs_diff(60) <= ran.biggest, "{} passes", ran.passes);
}

#[test]
fn a_recording_clock_runs_at_its_own_rate() {
    let ran = a_second_on(&mut Clock::new(beat(30), SECOND), 60.0);
    assert!(ran.passes.abs_diff(30) <= 1, "{} frames", ran.passes);
    assert_eq!(ran.biggest, 1);
}
