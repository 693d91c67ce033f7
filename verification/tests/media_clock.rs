use inferno_aoip::real_time_box_channel::channel;
use inferno_aoip::media_clock::{
    corrected_duration, timestamp_to_clock_value, ClockOverlay, MediaClock, Timestamp,
};

#[test]
fn timestamp_to_clock_value_basic() {
    let ts = Timestamp { seconds: 1, nanos: 500_000_000 };
    assert_eq!(timestamp_to_clock_value(ts), 1_500_000_000);
}

#[test]
fn timestamp_to_clock_value_zero() {
    let ts = Timestamp { seconds: 0, nanos: 0 };
    assert_eq!(timestamp_to_clock_value(ts), 0);
}

#[test]
fn timestamp_to_clock_value_large() {
    let ts = Timestamp { seconds: i64::MAX, nanos: 999_999_999 };
    let expected = (i64::MAX as u64).wrapping_mul(1_000_000_000).wrapping_add(999_999_999);
    assert_eq!(timestamp_to_clock_value(ts), expected);
}

#[test]
fn media_clock_new_not_ready() {
    let clock = MediaClock::new(false);
    assert!(!clock.is_ready());
    assert!(clock.get_overlay().is_none());
}

#[test]
fn media_clock_update_overlay_becomes_ready() {
    let mut clock = MediaClock::new(false);
    let overlay = ClockOverlay { clock_id: 1, last_sync: 0, shift: 0, freq_scale: 0.0f64.to_bits() };
    clock.update_overlay(overlay);
    assert!(clock.is_ready());
    assert!(clock.get_overlay().is_some());
}

#[test]
fn media_clock_update_overlay_replaces() {
    let mut clock = MediaClock::new(false);
    let overlay1 = ClockOverlay { clock_id: 1, last_sync: 100, shift: 0, freq_scale: 0.0f64.to_bits() };
    let overlay2 = ClockOverlay { clock_id: 1, last_sync: 200, shift: 50, freq_scale: 0.001f64.to_bits() };
    clock.update_overlay(overlay1);
    assert_eq!(clock.get_overlay().unwrap().clock_id, 1);
    assert_eq!(clock.get_overlay().unwrap().last_sync, 100);
    clock.update_overlay(overlay2);
    assert_eq!(clock.get_overlay().unwrap().clock_id, 1);
    assert_eq!(clock.get_overlay().unwrap().last_sync, 200);
}

fn ready_clock() -> MediaClock {
    let mut clock = MediaClock::new(false);
    clock.update_overlay(ClockOverlay { clock_id: 1, last_sync: 0, shift: 0, freq_scale: 0 });
    clock
}

#[test]
fn time_is_converted_to_the_timebase() {
    assert_eq!(MediaClock::new(false).now_in_timebase(1_000_000_000, 48000), None);
    let clock = ready_clock();
    assert_eq!(clock.now_in_timebase(1_500_000_000, 48000), Some(72000));
    assert_eq!(clock.wrapping_now_in_timebase(1_500_000_000, 48000), Some(72000));
}

#[test]
fn time_in_the_timebase_does_not_go_back() {
    let clock = ready_clock();
    let earlier = clock.now_in_timebase(1_000_000_001, 44100).unwrap();
    let later = clock.now_in_timebase(1_000_020_000, 44100).unwrap();
    assert!(earlier <= later);
}

#[test]
fn durations_are_corrected_and_not_negative() {
    assert_eq!(corrected_duration(100, 5), 95);
    assert_eq!(corrected_duration(-100, 5), 0);
}

#[test]
fn durations_are_computed() {
    let clock = ready_clock();
    assert_eq!(clock.remaining_until(1_000_000_000, 72000, 48000), Some(500_000_000));
    assert_eq!(clock.system_clock_duration_until(1_000_000_000, 72000, 48000, 500), Some(499_999_500));
    assert_eq!(clock.system_clock_duration_until(2_000_000_000, 72000, 48000, 0), Some(0));
    assert_eq!(clock.nanoseconds_from_until(100, 148, 48000), Some(1_000_000));
    assert_eq!(clock.nanoseconds_from_until(148, 100, 48000), Some(-1_000_000));
    assert_eq!(clock.nanoseconds_from_until(u64::MAX, 47, 48000), Some(1_000_000));
    assert_eq!(clock.system_clock_duration_from_until(100, 148, 48000, -10), Some(1_000_010));
    assert_eq!(clock.system_clock_duration_from_until(148, 100, 48000, 0), Some(0));
    let not_ready = MediaClock::new(false);
    assert_eq!(not_ready.remaining_until(0, 1, 48000), None);
    assert_eq!(not_ready.nanoseconds_from_until(0, 1, 48000), None);
    assert_eq!(not_ready.system_clock_duration_until(0, 1, 48000, 0), None);
    assert_eq!(not_ready.system_clock_duration_from_until(0, 1, 48000, 0), None);
}

#[test]
fn received_overlay_is_adopted() {
    let overlay = ClockOverlay { clock_id: 1, last_sync: 7, shift: 0, freq_scale: 0 };
    let mut clock = MediaClock::new(false);
    clock.adopt(false, &Some(overlay));
    assert!(!clock.is_ready());
    clock.adopt(true, &None);
    assert!(!clock.is_ready());
    clock.adopt(true, &Some(overlay));
    assert_eq!(clock.get_overlay().unwrap().last_sync, 7);
    let (sender, mut receiver) = channel(Box::new(None));
    let mut clock = MediaClock::new(false);
    assert!(!clock.refresh(&mut receiver));
    sender.send(Box::new(Some(overlay)));
    assert!(clock.refresh(&mut receiver));
    assert!(clock.is_ready());
}
