use pullsync::countdown::{cancel, is_active, snapshot, start, start_instant, CountdownState};

const SEC: u64 = 1_000_000_000;

#[test]
fn start_then_active_and_cancel_clears() {
    let mut slot: Option<CountdownState> = None;
    assert!(!is_active(&slot));
    start(&mut slot, 10, 5 * SEC);
    assert!(is_active(&slot));
    assert_eq!(start_instant(&slot), Some(5 * SEC));
    cancel(&mut slot);
    assert!(!is_active(&slot));
    assert_eq!(start_instant(&slot), None);
}

#[test]
fn snapshot_counts_whole_seconds_rounding_up() {
    let mut slot = None;
    start(&mut slot, 10, 0);
    let s = snapshot(&mut slot, 0).unwrap();
    assert_eq!(s.remaining, 10);
    assert!(!s.is_pull);
    let s = snapshot(&mut slot, SEC / 2).unwrap();
    assert_eq!(s.remaining, 10);
    let s = snapshot(&mut slot, SEC).unwrap();
    assert_eq!(s.remaining, 9);
    let s = snapshot(&mut slot, 9 * SEC + 1).unwrap();
    assert_eq!(s.remaining, 1);
}

#[test]
fn pull_is_reported_once_then_lingers_then_clears() {
    let mut slot = None;
    start(&mut slot, 3, 100);
    let s = snapshot(&mut slot, 100 + 3 * SEC).unwrap();
    assert!(s.is_pull);
    assert_eq!(s.remaining, 0);
    assert!(s.just_reached_pull);
    let s = snapshot(&mut slot, 100 + 4 * SEC).unwrap();
    assert!(s.is_pull);
    assert!(!s.just_reached_pull);
    // Linger is two seconds after zero.
    assert!(snapshot(&mut slot, 100 + 5 * SEC - 1).is_some());
    assert!(snapshot(&mut slot, 100 + 5 * SEC).is_none());
    assert!(!is_active(&slot));
}

#[test]
fn countdown_sound_window_fires_once_at_five_seconds_left() {
    let mut slot = None;
    start(&mut slot, 10, 0);
    let s = snapshot(&mut slot, 5 * SEC - 1).unwrap();
    assert!(!s.just_entered_countdown_sound_window);
    let s = snapshot(&mut slot, 5 * SEC).unwrap();
    assert!(s.just_entered_countdown_sound_window);
    assert_eq!(s.remaining, 5);
    let s = snapshot(&mut slot, 6 * SEC).unwrap();
    assert!(!s.just_entered_countdown_sound_window);
}

#[test]
fn short_countdowns_skip_the_countdown_sound() {
    let mut slot = None;
    start(&mut slot, 4, 0);
    for t in 0..8u64 {
        if let Some(s) = snapshot(&mut slot, t * SEC / 2) {
            assert!(!s.just_entered_countdown_sound_window);
        }
    }
}

#[test]
fn frozen_past_zero_skips_the_countdown_sound() {
    let mut slot = None;
    start(&mut slot, 10, 0);
    let s = snapshot(&mut slot, 10 * SEC).unwrap();
    assert!(s.is_pull);
    assert!(!s.just_entered_countdown_sound_window);
    assert!(s.just_reached_pull);
}

#[test]
fn zero_countdown_is_pull_immediately() {
    let mut slot = None;
    start(&mut slot, 0, 7);
    let s = snapshot(&mut slot, 7).unwrap();
    assert!(s.is_pull);
    assert!(s.just_reached_pull);
}

#[test]
fn clock_reading_before_start_counts_as_no_time_elapsed() {
    let mut slot = None;
    start(&mut slot, 10, 50 * SEC);
    let s = snapshot(&mut slot, 10 * SEC).unwrap();
    assert_eq!(s.remaining, 10);
}

#[test]
fn remaining_never_increases() {
    let mut slot = None;
    start(&mut slot, 7, 0);
    let mut last = u32::MAX;
    let mut t = 0u64;
    while let Some(s) = snapshot(&mut slot, t) {
        assert!(s.remaining <= last);
        assert!(s.remaining <= 7);
        last = s.remaining;
        t += SEC / 3;
    }
    assert_eq!(last, 0);
}

#[test]
fn restart_overwrites_running_countdown() {
    let mut slot = None;
    start(&mut slot, 10, 0);
    start(&mut slot, 3, 2 * SEC);
    let s = snapshot(&mut slot, 2 * SEC).unwrap();
    assert_eq!(s.remaining, 3);
}

#[test]
fn snapshot_of_nothing_is_none() {
    let mut slot: Option<CountdownState> = None;
    assert!(snapshot(&mut slot, 123).is_none());
}

#[test]
fn largest_countdown_does_not_overflow() {
    let mut slot = None;
    start(&mut slot, u32::MAX, 0);
    let s = snapshot(&mut slot, 0).unwrap();
    assert_eq!(s.remaining, u32::MAX);
}

#[test]
fn whole_run_reports_pull_and_sound_once() {
    let mut slot = None;
    start(&mut slot, 6, 0);
    let mut reached = 0;
    let mut sounds = 0;
    let mut first_pull_seen = false;
    let mut t = 0u64;
    while let Some(s) = snapshot(&mut slot, t) {
        if s.just_reached_pull {
            assert!(s.is_pull && !first_pull_seen);
            reached += 1;
        }
        if s.is_pull {
            first_pull_seen = true;
        }
        if s.just_entered_countdown_sound_window {
            sounds += 1;
        }
        t += SEC / 4;
    }
    assert_eq!(reached, 1);
    assert_eq!(sounds, 1);
}
