use padkit::midi::{note_number, velocity_byte, OutputEvent};
use padkit::pad::{axis_index, button_index, Drums, Hit, RawEvent, Tom, AXIS_BASE, BUTTON_BASE};

#[test]
fn new_tom_is_not_hit() {
    let tom = Tom::new(3);
    assert_eq!(tom.id, 3);
    assert_eq!(tom.hit, None);
}

#[test]
fn press_then_sample_gives_one_hit() {
    let mut tom = Tom::new(4);
    tom.hit(1_000);
    assert_eq!(tom.hit, Some(1_000));
    let hit = tom.record_velocity(250_000);
    assert_eq!(hit, Some(Hit { tom_id: 4, velocity: 250_000, time_usec: 1_000 }));
    assert_eq!(tom.hit, None);
    assert_eq!(tom.record_velocity(250_000), None);
    assert_eq!(tom, Tom::new(4));
}

#[test]
fn sample_without_press_is_ignored() {
    let mut tom = Tom::new(0);
    assert_eq!(tom.record_velocity(-300_000), None);
    assert_eq!(tom, Tom::new(0));
}

#[test]
fn repeated_press_keeps_the_first() {
    let mut tom = Tom::new(1);
    tom.hit(10);
    let once = tom;
    tom.hit(20);
    tom.hit(30);
    assert_eq!(tom, once);
    assert_eq!(tom.record_velocity(0), Some(Hit { tom_id: 1, velocity: 0, time_usec: 10 }));
    assert_eq!(tom.record_velocity(0), None);
}

#[test]
fn button_codes_map_in_order() {
    for pad in 0..6u32 {
        assert_eq!(button_index(BUTTON_BASE + pad), Some(pad as u8));
    }
    assert_eq!(button_index(65824), Some(0));
    assert_eq!(button_index(65829), Some(5));
    assert_eq!(button_index(BUTTON_BASE + 6), None);
    assert_eq!(button_index(BUTTON_BASE - 1), None);
    assert_eq!(button_index(0), None);
    assert_eq!(button_index(u32::MAX), None);
}

#[test]
fn axis_codes_map_by_table() {
    assert_eq!(axis_index(AXIS_BASE), Some(0));
    assert_eq!(axis_index(AXIS_BASE + 1), Some(1));
    assert_eq!(axis_index(AXIS_BASE + 2), None);
    assert_eq!(axis_index(AXIS_BASE + 3), Some(5));
    assert_eq!(axis_index(AXIS_BASE + 4), Some(4));
    assert_eq!(axis_index(AXIS_BASE + 5), Some(3));
    assert_eq!(axis_index(AXIS_BASE + 6), Some(2));
    assert_eq!(axis_index(AXIS_BASE + 7), None);
    assert_eq!(axis_index(AXIS_BASE - 1), None);
    assert_eq!(axis_index(196608), Some(0));
    assert_eq!(axis_index(u32::MAX), None);
}

#[test]
fn new_kit_has_six_idle_pads() {
    let drums = Drums::new();
    assert_eq!(drums.toms.len(), 6);
    for (i, tom) in drums.toms.iter().enumerate() {
        assert_eq!(*tom, Tom::new(i as u8));
    }
}

#[test]
fn kit_pairs_press_and_sample_of_each_pad() {
    let axis_offsets = [0u32, 1, 6, 5, 4, 3];
    for pad in 0..6u32 {
        let mut drums = Drums::new();
        let press = RawEvent::ButtonPressed { code: BUTTON_BASE + pad };
        let sample = RawEvent::AxisChanged {
            code: AXIS_BASE + axis_offsets[pad as usize],
            velocity: 100_000,
        };
        assert_eq!(drums.process_event(press, 5), None);
        assert_eq!(
            drums.process_event(sample, 9),
            Some(Hit { tom_id: pad as u8, velocity: 100_000, time_usec: 5 })
        );
        assert_eq!(drums.process_event(sample, 12), None);
        assert_eq!(drums.toms, Drums::new().toms);
    }
}

#[test]
fn kit_sample_on_another_pad_gives_no_hit() {
    let mut drums = Drums::new();
    assert_eq!(drums.process_event(RawEvent::ButtonPressed { code: BUTTON_BASE + 1 }, 5), None);
    assert_eq!(
        drums.process_event(RawEvent::AxisChanged { code: AXIS_BASE, velocity: 1 }, 6),
        None
    );
    assert_eq!(drums.toms[1].hit, Some(5));
    assert_eq!(
        drums.process_event(RawEvent::AxisChanged { code: AXIS_BASE + 1, velocity: 1 }, 7),
        Some(Hit { tom_id: 1, velocity: 1, time_usec: 5 })
    );
}

#[test]
fn kit_drops_codes_of_no_pad_and_releases() {
    let mut drums = Drums::new();
    let idle = Drums::new().toms;
    assert_eq!(drums.process_event(RawEvent::ButtonPressed { code: 7 }, 1), None);
    assert_eq!(drums.process_event(RawEvent::ButtonPressed { code: BUTTON_BASE + 6 }, 1), None);
    assert_eq!(drums.process_event(RawEvent::ButtonPressed { code: u32::MAX }, 1), None);
    assert_eq!(
        drums.process_event(RawEvent::AxisChanged { code: AXIS_BASE + 2, velocity: 3 }, 1),
        None
    );
    assert_eq!(drums.process_event(RawEvent::AxisChanged { code: 0, velocity: 3 }, 1), None);
    assert_eq!(drums.process_event(RawEvent::ButtonReleased { code: BUTTON_BASE }, 1), None);
    assert_eq!(drums.toms, idle);
    drums.process_event(RawEvent::ButtonPressed { code: BUTTON_BASE }, 2);
    drums.process_event(RawEvent::ButtonReleased { code: BUTTON_BASE }, 3);
    assert_eq!(drums.toms[0].hit, Some(2));
}

#[test]
fn velocity_byte_scales_and_rounds() {
    assert_eq!(velocity_byte(0), 127);
    assert_eq!(velocity_byte(500_000), 64);
    assert_eq!(velocity_byte(-500_000), 64);
    assert_eq!(velocity_byte(250_000), 95);
    assert_eq!(velocity_byte(3_937), 127);
    assert_eq!(velocity_byte(3_938), 126);
    assert_eq!(velocity_byte(996_062), 1);
    assert_eq!(velocity_byte(996_063), 0);
    assert_eq!(velocity_byte(999_999), 0);
}

#[test]
fn velocity_byte_of_full_deflection_and_beyond_is_zero() {
    assert_eq!(velocity_byte(1_000_000), 0);
    assert_eq!(velocity_byte(-1_000_000), 0);
    assert_eq!(velocity_byte(i32::MAX), 0);
    assert_eq!(velocity_byte(i32::MIN), 0);
}

#[test]
fn note_numbers_start_at_36() {
    assert_eq!(note_number(0), 36);
    assert_eq!(note_number(2), 38);
    assert_eq!(note_number(5), 41);
}

#[test]
fn hit_to_midi_bytes() {
    let hit = Hit { tom_id: 2, velocity: 500_000, time_usec: 0 };
    assert_eq!(hit.to_midi_bytes(0x90), [0x90, 38, 64]);
    assert_eq!(hit.to_midi_bytes(0x80), [0x80, 38, 64]);
}

#[test]
fn output_event_to_midi_bytes() {
    let event = OutputEvent { frame_offset: 7, status: 0x80, note: 41, velocity: 12 };
    assert_eq!(event.to_midi_bytes(), [0x80, 41, 12]);
}
