//! Time: from wall-clock microseconds to frames of the current cycle, and
//! from a tempo to the moment a note ends.

use vstd::prelude::*;
use vstd::arithmetic::div_mod::lemma_div_is_ordered;
use vstd::arithmetic::mul::lemma_mul_inequality;
use crate::midi::round_div;

verus! {

/// Tempo that stands in when the transport reports none.
pub const DEFAULT_BPM: u32 = 120;

/// Microseconds in a minute.
pub const USEC_PER_MINUTE: u64 = 60_000_000;

/// What the audio engine says of the cycle being filled.
#[derive(Clone, Copy, Debug, PartialEq, Eq, Structural)]
pub struct CycleWindow {
    /// Start of this cycle, in microseconds.
    pub current_usec: u64,
    /// Start of the next cycle, in microseconds.
    pub next_usec: u64,
    /// Frame count at the start of this cycle.
    pub current_frame: u32,
    /// Frames in this cycle.
    pub frames_in_cycle: u32,
    /// Length of a cycle, in microseconds.
    pub period_usec: u64,
    /// Tempo of the transport; 0 where it reports none.
    pub beats_per_minute: u32,
}

impl CycleWindow {
    /// A cycle holds at least one frame and lasts at least a microsecond.
    pub open spec fn well_formed(&self) -> bool {
        self.frames_in_cycle > 0 && self.period_usec > 0
    }

    /// The window of these values; `None` where the cycle has no frame or
    /// no length.
    pub fn new(
        current_usec: u64,
        next_usec: u64,
        current_frame: u32,
        frames_in_cycle: u32,
        period_usec: u64,
        beats_per_minute: u32,
    ) -> (cycle: Option<CycleWindow>)
        ensures
            cycle is Some <==> frames_in_cycle > 0 && period_usec > 0,
            cycle is Some ==> cycle->0 == (CycleWindow {
                current_usec,
                next_usec,
                current_frame,
                frames_in_cycle,
                period_usec,
                beats_per_minute,
            }),
            cycle is Some ==> cycle->0.well_formed(),
    {
        if frames_in_cycle == 0 || period_usec == 0 {
            None
        } else {
            Some(
                CycleWindow {
                    current_usec,
                    next_usec,
                    current_frame,
                    frames_in_cycle,
                    period_usec,
                    beats_per_minute,
                },
            )
        }
    }
}

/// Time that has passed between an event and now; an event from the future
/// counts as happening now.
pub open spec fn spec_event_age(now_usec: u64, event_usec: u64) -> int {
    if now_usec >= event_usec {
        now_usec - event_usec
    } else {
        0
    }
}

/// Frames that a span of microseconds covers, rounded to the nearest frame.
pub open spec fn spec_span_frames(span_usec: int, cycle: CycleWindow) -> int {
    round_div(span_usec * cycle.frames_in_cycle as int, cycle.period_usec as int)
}

/// The nearest frame of the cycle.
pub open spec fn spec_clamp_frame(frame: int, cycle: CycleWindow) -> int {
    if frame < 0 {
        0
    } else if frame >= cycle.frames_in_cycle as int {
        cycle.frames_in_cycle as int - 1
    } else {
        frame
    }
}

/// Frame of an event that happened `age_usec` before the end of the cycle's
/// buffer: the older the event, the earlier its frame.
pub open spec fn spec_to_frame(age_usec: int, cycle: CycleWindow) -> int {
    spec_clamp_frame(cycle.frames_in_cycle as int - spec_span_frames(age_usec, cycle), cycle)
}

/// Frame, on the engine's running count, of a moment at or after the start
/// of the cycle; an earlier moment counts as the start.
pub open spec fn spec_time_to_frame(usec: u64, cycle: CycleWindow) -> int {
    let ahead_usec = if usec >= cycle.current_usec {
        usec - cycle.current_usec
    } else {
        0
    };
    cycle.current_frame as int + spec_span_frames(ahead_usec, cycle)
}

/// Frame of the cycle at which a note that ends at `due_usec` gets its
/// note-off.
pub open spec fn spec_expiry_frame(due_usec: u64, cycle: CycleWindow) -> int {
    spec_clamp_frame(spec_time_to_frame(due_usec, cycle) - cycle.current_frame as int, cycle)
}

/// Tempo in use: the transport's, or the default where it reports none.
pub open spec fn spec_tempo(beats_per_minute: u32) -> int {
    if beats_per_minute == 0 {
        DEFAULT_BPM as int
    } else {
        beats_per_minute as int
    }
}

/// Length of one beat, in microseconds.
pub open spec fn spec_beat_duration_usec(beats_per_minute: u32) -> int {
    USEC_PER_MINUTE as int / spec_tempo(beats_per_minute)
}

/// Moment, on the cycle's clock, at which an event of the given age happened.
pub open spec fn spec_onset_usec(age_usec: u64, cycle: CycleWindow) -> int {
    if cycle.current_usec >= age_usec {
        cycle.current_usec - age_usec
    } else {
        0
    }
}

/// Moment at which the note of an event of the given age ends: one beat after
/// its onset, and no later than the clock can count.
pub open spec fn spec_note_off_due(age_usec: u64, cycle: CycleWindow) -> int {
    let due = spec_onset_usec(age_usec, cycle) + spec_beat_duration_usec(cycle.beats_per_minute);
    if due > u64::MAX as int {
        u64::MAX as int
    } else {
        due
    }
}

/// Whether a moment lies in the cycle: at or after its start, before the
/// start of the next.
pub open spec fn spec_is_due(due_usec: u64, cycle: CycleWindow) -> bool {
    cycle.current_usec <= due_usec && due_usec < cycle.next_usec
}

/// Age of an event at the moment `now_usec`; 0 for an event from the future.
pub fn event_age(now_usec: u64, event_usec: u64) -> (age: u64)
    ensures
        age as int == spec_event_age(now_usec, event_usec),
{
    now_usec.saturating_sub(event_usec)
}

/// Frames that a span covers, cut off at the length of the cycle.
fn span_frames_capped(span_usec: u64, cycle: &CycleWindow) -> (frames: u32)
    requires
        cycle.well_formed(),
    ensures
        frames <= cycle.frames_in_cycle,
        spec_span_frames(span_usec as int, *cycle) >= 0,
        frames as int == if spec_span_frames(span_usec as int, *cycle)
            >= cycle.frames_in_cycle as int {
            cycle.frames_in_cycle as int
        } else {
            spec_span_frames(span_usec as int, *cycle)
        },
{
    let span: u128 = span_usec as u128;
    let frames: u128 = cycle.frames_in_cycle as u128;
    let period: u128 = cycle.period_usec as u128;
    assert(0 <= span * frames <= 0x1_0000_0000_0000_0000 * 0x1_0000_0000) by (nonlinear_arith)
        requires
            0 <= span < 0x1_0000_0000_0000_0000,
            0 <= frames < 0x1_0000_0000,
    ;
    let covered: u128 = (2 * (span * frames) + period) / (2 * period);
    if covered >= frames {
        cycle.frames_in_cycle
    } else {
        covered as u32
    }
}

/// Frame offset of an event that happened `age_usec` ago.
pub fn to_frame(age_usec: u64, cycle: &CycleWindow) -> (frame: u32)
    requires
        cycle.well_formed(),
    ensures
        frame as int == spec_to_frame(age_usec as int, *cycle),
        frame < cycle.frames_in_cycle,
{
    let back: u32 = span_frames_capped(age_usec, cycle);
    if back == 0 {
        cycle.frames_in_cycle - 1
    } else {
        cycle.frames_in_cycle - back
    }
}

/// Frame offset of a note-off that is due in this cycle.
pub fn expiry_frame(due_usec: u64, cycle: &CycleWindow) -> (frame: u32)
    requires
        cycle.well_formed(),
    ensures
        frame as int == spec_expiry_frame(due_usec, *cycle),
        frame < cycle.frames_in_cycle,
{
    let span: u64 = due_usec.saturating_sub(cycle.current_usec);
    let ahead: u32 = span_frames_capped(span, cycle);
    if ahead >= cycle.frames_in_cycle {
        cycle.frames_in_cycle - 1
    } else {
        ahead
    }
}

/// Length of one beat at the given tempo; at tempo 0, at the default tempo.
pub fn beat_duration_usec(beats_per_minute: u32) -> (beat: u64)
    ensures
        beat as int == spec_beat_duration_usec(beats_per_minute),
        beat <= USEC_PER_MINUTE,
{
    let tempo: u32 = if beats_per_minute == 0 { DEFAULT_BPM } else { beats_per_minute };
    let beat: u64 = USEC_PER_MINUTE / (tempo as u64);
    assert(USEC_PER_MINUTE as int / tempo as int <= USEC_PER_MINUTE as int) by (nonlinear_arith)
        requires
            tempo >= 1,
    ;
    beat
}

/// Moment at which the note of an event of the given age ends.
pub fn note_off_due(age_usec: u64, cycle: &CycleWindow) -> (due: u64)
    ensures
        due as int == spec_note_off_due(age_usec, *cycle),
{
    let onset: u64 = cycle.current_usec.saturating_sub(age_usec);
    onset.saturating_add(beat_duration_usec(cycle.beats_per_minute))
}

/// Whether a note that ends at `due_usec` ends in this cycle.
pub fn is_due(due_usec: u64, cycle: &CycleWindow) -> (due: bool)
    ensures
        due == spec_is_due(due_usec, *cycle),
{
    cycle.current_usec <= due_usec && due_usec < cycle.next_usec
}

/// An older event never lands on a later frame, and every event lands inside
/// the cycle.
pub proof fn lemma_to_frame_monotone(younger_usec: int, older_usec: int, cycle: CycleWindow)
    requires
        cycle.well_formed(),
        0 <= younger_usec <= older_usec,
    ensures
        spec_to_frame(older_usec, cycle) <= spec_to_frame(younger_usec, cycle),
        0 <= spec_to_frame(older_usec, cycle) < cycle.frames_in_cycle,
        0 <= spec_to_frame(younger_usec, cycle) < cycle.frames_in_cycle,
{
    let frames = cycle.frames_in_cycle as int;
    let period = cycle.period_usec as int;
    lemma_mul_inequality(younger_usec, older_usec, frames);
    lemma_div_is_ordered(
        2 * (younger_usec * frames) + period,
        2 * (older_usec * frames) + period,
        2 * period,
    );
}

/// At any tempo above 0 a note ends one beat, `60_000_000 / tempo`
/// microseconds, after its onset; at 120 beats per minute that is 500 000
/// microseconds.
pub proof fn lemma_note_off_one_beat_later(age_usec: u64, cycle: CycleWindow)
    requires
        cycle.beats_per_minute > 0,
        age_usec <= cycle.current_usec,
        cycle.current_usec - age_usec + USEC_PER_MINUTE <= u64::MAX,
    ensures
        spec_note_off_due(age_usec, cycle) == cycle.current_usec - age_usec + USEC_PER_MINUTE as int
            / cycle.beats_per_minute as int,
        cycle.beats_per_minute == 120 ==> spec_note_off_due(age_usec, cycle) == cycle.current_usec
            - age_usec + 500_000,
{
    let tempo = cycle.beats_per_minute as int;
    assert(USEC_PER_MINUTE as int / tempo <= USEC_PER_MINUTE as int) by (nonlinear_arith)
        requires
            tempo >= 1,
    ;
}

} // verus!
