//! MIDI bytes: note numbers, status bytes, velocity scaling.

use vstd::prelude::*;

verus! {

/// Number of pads of the kit.
pub const TOM_COUNT: u8 = 6;

/// Note number of pad 0; pad `i` sounds note `BASE_NOTE + i`.
pub const BASE_NOTE: u8 = 36;

/// MIDI channel that every message goes out on.
pub const CHANNEL: u8 = 0;

/// Status byte of a note-on message.
pub const NOTE_ON: u8 = 0x90;

/// Status byte of a note-off message.
pub const NOTE_OFF: u8 = 0x80;

/// Largest velocity byte.
pub const MAX_VELOCITY: u8 = 127;

/// A raw axis value is a fixed-point number: `VELOCITY_UNIT` stands for 1.0,
/// `-VELOCITY_UNIT` for -1.0.
pub const VELOCITY_UNIT: i32 = 1_000_000;

/// One MIDI message placed at a frame of the current cycle.
#[derive(Clone, Copy, Debug, PartialEq, Eq, Structural)]
pub struct OutputEvent {
    pub frame_offset: u32,
    pub status: u8,
    pub note: u8,
    pub velocity: u8,
}

/// The quotient `num / den` rounded to the nearest integer, halves upward.
#[verifier::inline]
pub open spec fn round_div(num: int, den: int) -> int
    recommends
        num >= 0,
        den > 0,
{
    (2 * num + den) / (2 * den)
}

/// Velocity byte of a raw axis value: `(1 - |raw|) * 127`, rounded, where the
/// axis is centred at rest; a magnitude of 1.0 or more gives 0.
pub open spec fn spec_velocity_byte(raw: int) -> int {
    let magnitude = if raw < 0 { -raw } else { raw };
    if magnitude >= VELOCITY_UNIT as int {
        0
    } else {
        round_div(MAX_VELOCITY as int * (VELOCITY_UNIT as int - magnitude), VELOCITY_UNIT as int)
    }
}

/// Note number of a pad.
pub open spec fn spec_note(tom_id: u8) -> int {
    BASE_NOTE as int + tom_id as int
}

/// Status byte of a note-on on the kit's channel.
pub open spec fn spec_note_on_status() -> u8 {
    (NOTE_ON + CHANNEL) as u8
}

/// Status byte of a note-off on the kit's channel.
pub open spec fn spec_note_off_status() -> u8 {
    (NOTE_OFF + CHANNEL) as u8
}

/// Whether an event is a note-on or a note-off of a pad of the kit, with a
/// velocity that a MIDI message can carry.
pub open spec fn is_note_event(event: OutputEvent) -> bool {
    &&& event.status == spec_note_on_status() || event.status == spec_note_off_status()
    &&& BASE_NOTE <= event.note < BASE_NOTE + TOM_COUNT
    &&& event.velocity <= MAX_VELOCITY
}

/// Every event is a note-on or a note-off of the kit.
pub open spec fn all_note_events(events: Seq<OutputEvent>) -> bool {
    forall|k: int| 0 <= k < events.len() ==> is_note_event(#[trigger] events[k])
}

/// Status byte of a note-on on the kit's channel.
pub fn note_on_status() -> (status: u8)
    ensures
        status == spec_note_on_status(),
        status == 0x90,
{
    NOTE_ON + CHANNEL
}

/// Status byte of a note-off on the kit's channel.
pub fn note_off_status() -> (status: u8)
    ensures
        status == spec_note_off_status(),
        status == 0x80,
{
    NOTE_OFF + CHANNEL
}

/// Scales a raw axis value to a velocity byte.
pub fn velocity_byte(raw: i32) -> (byte: u8)
    ensures
        byte as int == spec_velocity_byte(raw as int),
        byte <= MAX_VELOCITY,
{
    let wide: i64 = raw as i64;
    let magnitude: i64 = if wide < 0 { -wide } else { wide };
    if magnitude >= VELOCITY_UNIT as i64 {
        0
    } else {
        let scaled: i64 = 127 * (VELOCITY_UNIT as i64 - magnitude);
        let rounded: i64 = (2 * scaled + VELOCITY_UNIT as i64) / (2 * VELOCITY_UNIT as i64);
        rounded as u8
    }
}

/// Note number of a pad of the kit.
pub fn note_number(tom_id: u8) -> (note: u8)
    requires
        tom_id < TOM_COUNT,
    ensures
        note as int == spec_note(tom_id),
        note <= MAX_VELOCITY,
{
    BASE_NOTE + tom_id
}

impl OutputEvent {
    /// The three bytes that go to the output port: status, note, velocity.
    pub fn to_midi_bytes(&self) -> (bytes: [u8; 3])
        ensures
            bytes@ == seq![self.status, self.note, self.velocity],
    {
        let bytes = [self.status, self.note, self.velocity];
        assert(bytes@ =~= seq![self.status, self.note, self.velocity]);
        bytes
    }
}

} // verus!
