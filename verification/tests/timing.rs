use padkit::midi::{note_off_status, note_on_status};
use padkit::timing::{
    beat_duration_usec, event_age, expiry_frame, is_due, note_off_due, to_frame, CycleWindow,
    DEFAULT_BPM,
};

fn window(current_usec: u64, bpm: u32) -> CycleWindow {
    CycleWindow::new(current_usec, current_usec + 21_333, 0, 1024, 21_333, bpm).unwrap()
}

#[test]
fn cycle_window_needs_frames_and_a_period() {
    assert_eq!(CycleWindow::new(0, 10, 0, 0, 10, 120), None);
    assert_eq!(CycleWindow::new(0, 10, 0, 64, 0, 120), None);
    assert_eq!(
        CycleWindow::new(1, 10, 3, 64, 9, 0),
        Some(CycleWindow {
            current_usec: 1,
            next_usec: 10,
            current_frame: 3,
            frames_in_cycle: 64,
            period_usec: 9,
            beats_per_minute: 0,
        })
    );
}

#[test]
fn event_age_clamps_future_events() {
    assert_eq!(event_age(2_000, 0), 2_000);
    assert_eq!(event_age(5, 5), 0);
    assert_eq!(event_age(5, 6), 0);
    assert_eq!(event_age(0, u64::MAX), 0);
    assert_eq!(event_age(u64::MAX, 0), u64::MAX);
}

#[test]
fn to_frame_exact_values() {
    let cycle = window(0, 120);
    assert_eq!(to_frame(2_000, &cycle), 928);
    assert_eq!(to_frame(10_666, &cycle), 512);
    let round = CycleWindow::new(0, 10_000, 0, 100, 10_000, 120).unwrap();
    assert_eq!(to_frame(1_000, &round), 90);
    assert_eq!(to_frame(1_049, &round), 90);
    assert_eq!(to_frame(1_050, &round), 89);
}

#[test]
fn to_frame_clamps_to_the_cycle() {
    let cycle = window(0, 120);
    assert_eq!(to_frame(0, &cycle), 1023);
    assert_eq!(to_frame(10, &cycle), 1023);
    assert_eq!(to_frame(21_333, &cycle), 0);
    assert_eq!(to_frame(1_000_000_000, &cycle), 0);
    assert_eq!(to_frame(u64::MAX, &cycle), 0);
    let widest = CycleWindow::new(0, 1, 0, u32::MAX, 1, 120).unwrap();
    assert_eq!(to_frame(u64::MAX, &widest), 0);
    assert_eq!(to_frame(0, &widest), u32::MAX - 1);
    let single = CycleWindow::new(0, 1, 0, 1, u64::MAX, 120).unwrap();
    assert_eq!(to_frame(0, &single), 0);
    assert_eq!(to_frame(u64::MAX, &single), 0);
}

#[test]
fn to_frame_never_rises_with_age() {
    let cycle = window(0, 120);
    let mut last = to_frame(0, &cycle);
    let mut age = 0u64;
    while age < 22_000 {
        let frame = to_frame(age, &cycle);
        assert!(frame <= last);
        assert!(frame < 1024);
        last = frame;
        age += 7;
    }
}

#[test]
fn beat_duration_follows_the_tempo() {
    assert_eq!(beat_duration_usec(120), 500_000);
    assert_eq!(beat_duration_usec(60), 1_000_000);
    assert_eq!(beat_duration_usec(140), 428_571);
    assert_eq!(beat_duration_usec(7), 8_571_428);
    assert_eq!(beat_duration_usec(1), 60_000_000);
    assert_eq!(beat_duration_usec(u32::MAX), 0);
}

#[test]
fn beat_duration_without_tempo_uses_the_default() {
    assert_eq!(DEFAULT_BPM, 120);
    assert_eq!(beat_duration_usec(0), 500_000);
}

#[test]
fn note_off_is_due_one_beat_after_the_onset() {
    let cycle = window(1_000_000, 120);
    assert_eq!(note_off_due(0, &cycle), 1_500_000);
    assert_eq!(note_off_due(2_000, &cycle), 1_498_000);
    assert_eq!(note_off_due(2_000, &window(1_000_000, 60)), 1_998_000);
    assert_eq!(note_off_due(2_000, &window(1_000_000, 0)), 1_498_000);
}

#[test]
fn note_off_due_saturates() {
    assert_eq!(note_off_due(5_000, &window(1_000, 120)), 500_000);
    let late = CycleWindow::new(u64::MAX - 10, u64::MAX, 0, 64, 10, 120).unwrap();
    assert_eq!(note_off_due(0, &late), u64::MAX);
}

#[test]
fn is_due_is_half_open() {
    let cycle = window(490_667, 120);
    assert!(is_due(490_667, &cycle));
    assert!(is_due(500_000, &cycle));
    assert!(is_due(511_999, &cycle));
    assert!(!is_due(512_000, &cycle));
    assert!(!is_due(490_666, &cycle));
    let empty = CycleWindow::new(10, 10, 0, 64, 10, 120).unwrap();
    assert!(!is_due(10, &empty));
}

#[test]
fn expiry_frame_exact_values() {
    let cycle = window(490_667, 120);
    assert_eq!(expiry_frame(490_667, &cycle), 0);
    assert_eq!(expiry_frame(500_000, &cycle), 448);
    assert_eq!(expiry_frame(511_999, &cycle), 1023);
    assert_eq!(expiry_frame(600_000, &cycle), 1023);
    assert_eq!(expiry_frame(0, &cycle), 0);
    let round = CycleWindow::new(1_000, 11_000, 0, 100, 10_000, 120).unwrap();
    assert_eq!(expiry_frame(3_500, &round), 25);
}

#[test]
fn status_bytes() {
    assert_eq!(note_on_status(), 0x90);
    assert_eq!(note_off_status(), 0x80);
}
