use smooth_volume::codec::{parse, Command, VolumeChange};
use smooth_volume::engine::{Config, Controller};
use smooth_volume::volume::{raw_to_units, units_to_raw, average_raw};

fn controller(interval_ms: u64, default_duration_ms: u64, clamp: bool) -> Controller {
    let mut c = Controller::new(Config { interval_ms, default_duration_ms, clamp });
    c.set_sink(String::from("sink"), 2, 0);
    c
}

/// Runs the transition to completion, collecting every applied value.
fn run_to_idle(c: &mut Controller) -> Vec<i64> {
    let mut applied = Vec::new();
    while let Some(v) = c.tick() {
        applied.push(v);
        if c.wants_blocking_recv() {
            break;
        }
    }
    applied
}

#[test]
fn end_to_end_smooth_increase() {
    // starting volume 0.20, command "+0.30 100", interval 10:
    // ten interpolation steps after the start's re-application,
    // 0.20, 0.23, ..., 0.50, the last exactly at target
    let mut c = controller(10, 150, true);
    let cmd = parse(b"+0.30 100").unwrap();
    let (change, duration) = match cmd {
        Command::Change { change, duration } => (change, duration),
        _ => panic!("expected a change"),
    };
    c.apply_change(change, duration, 2000, 2);
    let applied = run_to_idle(&mut c);
    assert_eq!(
        applied,
        vec![2000, 2300, 2600, 2900, 3200, 3500, 3800, 4100, 4400, 4700, 5000]
    );
    assert!(c.wants_blocking_recv());
}

#[test]
fn short_duration_jumps_in_one_step() {
    // duration within one interval: one interpolation step to target
    let mut c = controller(10, 150, true);
    c.apply_change(VolumeChange::Absolute(5000), Some(50_000), 2000, 2);
    let applied = run_to_idle(&mut c);
    assert_eq!(applied, vec![2000, 5000]);
}

#[test]
fn zero_distance_snaps_immediately() {
    let mut c = controller(10, 150, true);
    c.apply_change(VolumeChange::Absolute(2000), Some(50_000), 2000, 2);
    let applied = run_to_idle(&mut c);
    assert_eq!(applied, vec![2000]);
}

#[test]
fn decrease_is_monotonic_down() {
    let mut c = controller(10, 150, true);
    c.apply_change(VolumeChange::Increase(-3000), Some(1_000_000), 5000, 2);
    let applied = run_to_idle(&mut c);
    assert_eq!(applied.first(), Some(&5000));
    assert_eq!(applied.last(), Some(&2000));
    for w in applied.windows(2) {
        assert!(w[0] >= w[1]);
    }
}

#[test]
fn default_duration_when_absent() {
    // no duration: the configured default of 100 ms over 10 ms ticks
    let mut c = controller(10, 100, true);
    c.apply_change(VolumeChange::Increase(1000), None, 0, 2);
    assert_eq!(c.transition.unwrap().ticks_total, 10);
}

#[test]
fn default_duration_when_out_of_window() {
    // a negative or oversized duration falls back to the default
    let mut c = controller(10, 100, true);
    c.apply_change(VolumeChange::Increase(1000), Some(-50_000), 0, 2);
    assert_eq!(c.transition.unwrap().ticks_total, 10);
    let mut c = controller(10, 100, true);
    c.apply_change(VolumeChange::Increase(1000), Some(10_000_000_000_001), 0, 2);
    assert_eq!(c.transition.unwrap().ticks_total, 10);
    // exactly one billion milliseconds is still valid
    let mut c = controller(1_000_000, 100, true);
    c.apply_change(VolumeChange::Increase(1000), Some(10_000_000_000_000), 0, 2);
    assert_eq!(c.transition.unwrap().ticks_total, 1000);
}

#[test]
fn preemption_resolves_against_interpolated_volume() {
    // change A from 0.20 towards 0.60; after three ticks the
    // interpolation stands at 0.28; change B of +0.10 then aims at
    // 0.38 - not 0.30 (A's start plus 0.10) nor 0.70 (A's target)
    let mut c = controller(10, 150, true);
    c.apply_change(VolumeChange::Increase(4000), Some(1_000_000), 2000, 2);
    let mut last = 0;
    for _ in 0..3 {
        last = c.tick().unwrap();
    }
    assert_eq!(last, 2800);
    c.apply_change(VolumeChange::Increase(1000), Some(1_000_000), last, 2);
    assert_eq!(c.transition.unwrap().target, 3800);
    let applied = run_to_idle(&mut c);
    assert_eq!(*applied.last().unwrap(), 3800);
}

#[test]
fn clamp_enabled_caps_at_nominal() {
    // a +10.0 increase from any volume targets exactly 1.0
    let mut c = controller(10, 150, true);
    c.apply_change(VolumeChange::Increase(100_000), Some(50_000), 5000, 2);
    let applied = run_to_idle(&mut c);
    assert_eq!(*applied.last().unwrap(), 10_000);
}

#[test]
fn clamp_disabled_passes_nominal() {
    let mut c = controller(10, 150, false);
    c.apply_change(VolumeChange::Increase(100_000), Some(50_000), 5000, 2);
    let applied = run_to_idle(&mut c);
    assert_eq!(*applied.last().unwrap(), 105_000);
}

#[test]
fn floor_at_silence_is_unconditional() {
    let mut c = controller(10, 150, false);
    c.apply_change(VolumeChange::Increase(-100_000), Some(50_000), 5000, 2);
    let applied = run_to_idle(&mut c);
    assert_eq!(*applied.last().unwrap(), 0);
}

#[test]
fn idle_tick_applies_nothing() {
    let mut c = controller(10, 150, true);
    assert_eq!(c.tick(), None);
    assert!(c.wants_blocking_recv());
}

#[test]
fn blocking_only_while_idle() {
    let mut c = controller(10, 150, true);
    assert!(c.wants_blocking_recv());
    c.apply_change(VolumeChange::Increase(1000), None, 2000, 2);
    assert!(!c.wants_blocking_recv());
}

#[test]
fn sink_staleness_window() {
    let mut c = Controller::new(Config { interval_ms: 10, default_duration_ms: 150, clamp: true });
    assert!(c.sink_needs_refresh(0));
    c.set_sink(String::from("sink"), 2, 5000);
    assert!(!c.sink_needs_refresh(5000));
    assert!(!c.sink_needs_refresh(6000));
    assert!(c.sink_needs_refresh(6001));
    c.clear_sink();
    assert!(c.sink_needs_refresh(5000));
}

#[test]
fn sink_getters() {
    let mut c = Controller::new(Config { interval_ms: 10, default_duration_ms: 150, clamp: true });
    assert!(!c.has_sink());
    c.set_sink(String::from("front"), 6, 42);
    assert!(c.has_sink());
    assert_eq!(c.sink_name().as_str(), "front");
    assert_eq!(c.sink_channels(), 6);
    // a change's sample carries a fresh channel count into the cache
    c.apply_change(VolumeChange::Increase(0), None, 0, 4);
    assert_eq!(c.sink_channels(), 4);
}

#[test]
fn raw_conversions_round_trip_nominal() {
    assert_eq!(raw_to_units(0x10000), 10_000);
    assert_eq!(units_to_raw(10_000), 0x10000);
    assert_eq!(raw_to_units(0), 0);
    assert_eq!(units_to_raw(0), 0);
    // rounding to the nearest unit
    assert_eq!(raw_to_units(1), 0);
    assert_eq!(raw_to_units(7), 1);
    assert_eq!(raw_to_units(0x8000), 5000);
}

#[test]
fn average_raw_truncated_mean() {
    assert_eq!(average_raw(&[]), 0);
    assert_eq!(average_raw(&[3]), 3);
    assert_eq!(average_raw(&[3, 4]), 3);
    assert_eq!(average_raw(&[u32::MAX, u32::MAX]), u32::MAX);
}
