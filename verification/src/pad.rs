//! The pads of the kit: each remembers a press until the velocity sample that
//! belongs to it arrives.

use vstd::prelude::*;
use crate::midi::{note_number, velocity_byte, spec_note, spec_velocity_byte, TOM_COUNT};

verus! {

/// First button code of the controller: pad `i` presses code `BUTTON_BASE + i`.
pub const BUTTON_BASE: u32 = 65824;

/// First axis code of the controller.
pub const AXIS_BASE: u32 = 196608;

/// A strike on a pad: which pad, how hard, and when it was pressed.
#[derive(Clone, Copy, Debug, PartialEq, Eq, Structural)]
pub struct Hit {
    pub tom_id: u8,
    /// Raw axis value, in units of `1 / VELOCITY_UNIT`.
    pub velocity: i32,
    /// Wall-clock time of the press, in microseconds.
    pub time_usec: u64,
}

/// One pad. `hit` holds the time of a press that still waits for its
/// velocity sample.
#[derive(Clone, Copy, Debug, PartialEq, Eq, Structural)]
pub struct Tom {
    pub id: u8,
    pub hit: Option<u64>,
}

/// What the controller reports, with its code as the controller numbers it.
#[derive(Clone, Copy, Debug, PartialEq, Eq, Structural)]
pub enum RawEvent {
    ButtonPressed { code: u32 },
    ButtonReleased { code: u32 },
    AxisChanged { code: u32, velocity: i32 },
}

/// A controller event and the wall-clock time, in microseconds, at which it
/// happened.
#[derive(Clone, Copy, Debug, PartialEq, Eq, Structural)]
pub struct TimedEvent {
    pub event: RawEvent,
    pub time_usec: u64,
}

/// The kit: pad `i` stands at index `i`.
#[derive(Debug)]
pub struct Drums {
    pub toms: Vec<Tom>,
}

/// Pad of a button code: the six codes from `BUTTON_BASE` on, in order.
pub open spec fn spec_button_index(code: u32) -> Option<u8> {
    if BUTTON_BASE <= code && code < BUTTON_BASE + TOM_COUNT as u32 {
        Some((code - BUTTON_BASE) as u8)
    } else {
        None
    }
}

/// Pad of an axis code. The controller numbers its axes in an order of its
/// own; offsets 2 and 7 upward belong to no pad.
pub open spec fn spec_axis_index(code: u32) -> Option<u8> {
    if code < AXIS_BASE {
        None
    } else if code - AXIS_BASE == 0 {
        Some(0u8)
    } else if code - AXIS_BASE == 1 {
        Some(1u8)
    } else if code - AXIS_BASE == 6 {
        Some(2u8)
    } else if code - AXIS_BASE == 5 {
        Some(3u8)
    } else if code - AXIS_BASE == 4 {
        Some(4u8)
    } else if code - AXIS_BASE == 3 {
        Some(5u8)
    } else {
        None
    }
}

/// A pad after a press at `time_usec`: the first press stays, a repeated one
/// changes nothing.
pub open spec fn spec_press(tom: Tom, time_usec: u64) -> Tom {
    if tom.hit is Some {
        tom
    } else {
        Tom { id: tom.id, hit: Some(time_usec) }
    }
}

/// A pad after a velocity sample, and the hit that the sample completes.
pub open spec fn spec_sample(tom: Tom, velocity: i32) -> (Tom, Option<Hit>) {
    match tom.hit {
        Some(time_usec) => (
            Tom { id: tom.id, hit: None },
            Some(Hit { tom_id: tom.id, velocity, time_usec }),
        ),
        None => (tom, None),
    }
}

/// The kit after one controller event, and the hit that the event completes.
pub open spec fn spec_process_event(toms: Seq<Tom>, event: RawEvent, time_usec: u64) -> (
    Seq<Tom>,
    Option<Hit>,
) {
    match event {
        RawEvent::ButtonPressed { code } => match spec_button_index(code) {
            Some(index) => (toms.update(index as int, spec_press(toms[index as int], time_usec)), None),
            None => (toms, None),
        },
        RawEvent::AxisChanged { code, velocity } => match spec_axis_index(code) {
            Some(index) => (
                toms.update(index as int, spec_sample(toms[index as int], velocity).0),
                spec_sample(toms[index as int], velocity).1,
            ),
            None => (toms, None),
        },
        RawEvent::ButtonReleased { code } => (toms, None),
    }
}

/// Every pad stands at its own index.
pub open spec fn toms_well_formed(toms: Seq<Tom>) -> bool {
    &&& toms.len() == TOM_COUNT as nat
    &&& forall|i: int| 0 <= i < toms.len() ==> (#[trigger] toms[i]).id as int == i
}

/// A press on a pad followed by a velocity sample on it gives one hit, of
/// that pad and with that velocity; a further sample without a press in
/// between gives none and changes nothing.
pub proof fn lemma_press_then_sample(
    toms: Seq<Tom>,
    pad: u8,
    button: u32,
    axis: u32,
    press_usec: u64,
    velocity: i32,
    sample_usec: u64,
    again_velocity: i32,
    again_usec: u64,
)
    requires
        toms_well_formed(toms),
        spec_button_index(button) == Some(pad),
        spec_axis_index(axis) == Some(pad),
    ensures
        ({
            let pressed = spec_process_event(
                toms,
                RawEvent::ButtonPressed { code: button },
                press_usec,
            );
            let sampled = spec_process_event(
                pressed.0,
                RawEvent::AxisChanged { code: axis, velocity },
                sample_usec,
            );
            let again = spec_process_event(
                sampled.0,
                RawEvent::AxisChanged { code: axis, velocity: again_velocity },
                again_usec,
            );
            &&& pressed.1 is None
            &&& sampled.1 is Some
            &&& sampled.1->0.tom_id == pad
            &&& sampled.1->0.velocity == velocity
            &&& toms[pad as int].hit is None ==> sampled.1->0.time_usec == press_usec
            &&& again.1 is None
            &&& again.0 == sampled.0
        }),
{
    let pressed = spec_process_event(toms, RawEvent::ButtonPressed { code: button }, press_usec);
    let sampled = spec_process_event(
        pressed.0,
        RawEvent::AxisChanged { code: axis, velocity },
        sample_usec,
    );
    let again = spec_process_event(
        sampled.0,
        RawEvent::AxisChanged { code: axis, velocity: again_velocity },
        again_usec,
    );
    assert(again.0 =~= sampled.0);
}

/// A second press on a pad that still waits for its velocity sample changes
/// nothing: one hit is outstanding, that of the first press.
pub proof fn lemma_press_idempotent(
    toms: Seq<Tom>,
    pad: u8,
    button: u32,
    first_usec: u64,
    second_usec: u64,
)
    requires
        toms_well_formed(toms),
        spec_button_index(button) == Some(pad),
    ensures
        ({
            let once = spec_process_event(
                toms,
                RawEvent::ButtonPressed { code: button },
                first_usec,
            );
            let twice = spec_process_event(
                once.0,
                RawEvent::ButtonPressed { code: button },
                second_usec,
            );
            &&& once.0[pad as int].hit is Some
            &&& twice.0 == once.0
            &&& twice.1 is None
        }),
{
    let once = spec_process_event(toms, RawEvent::ButtonPressed { code: button }, first_usec);
    let twice = spec_process_event(once.0, RawEvent::ButtonPressed { code: button }, second_usec);
    assert(twice.0 =~= once.0);
}

/// Pad that a button code belongs to, if any.
pub fn button_index(code: u32) -> (index: Option<u8>)
    ensures
        index == spec_button_index(code),
        index is Some ==> index->0 < TOM_COUNT,
{
    if BUTTON_BASE <= code && code < BUTTON_BASE + TOM_COUNT as u32 {
        Some((code - BUTTON_BASE) as u8)
    } else {
        None
    }
}

/// Pad that an axis code belongs to, if any.
pub fn axis_index(code: u32) -> (index: Option<u8>)
    ensures
        index == spec_axis_index(code),
        index is Some ==> index->0 < TOM_COUNT,
{
    if code < AXIS_BASE {
        return None;
    }
    let offset: u32 = code - AXIS_BASE;
    if offset == 0 {
        Some(0)
    } else if offset == 1 {
        Some(1)
    } else if offset == 6 {
        Some(2)
    } else if offset == 5 {
        Some(3)
    } else if offset == 4 {
        Some(4)
    } else if offset == 3 {
        Some(5)
    } else {
        None
    }
}

impl Hit {
    /// The hit names a pad of the kit.
    pub open spec fn well_formed(&self) -> bool {
        self.tom_id < TOM_COUNT
    }

    /// The message of this hit under the given status byte: status, note,
    /// velocity.
    pub fn to_midi_bytes(&self, status: u8) -> (bytes: [u8; 3])
        requires
            self.well_formed(),
        ensures
            bytes@ == seq![
                status,
                spec_note(self.tom_id) as u8,
                spec_velocity_byte(self.velocity as int) as u8,
            ],
    {
        let note = note_number(self.tom_id);
        let velocity = velocity_byte(self.velocity);
        let bytes = [status, note, velocity];
        assert(bytes@ =~= seq![status, note, velocity]);
        bytes
    }
}

impl Tom {
    /// The pad of the given number, not pressed.
    pub fn new(id: u8) -> (tom: Tom)
        ensures
            tom == (Tom { id, hit: None }),
    {
        Tom { id, hit: None }
    }

    /// Remembers a press, so that the next velocity sample completes a hit.
    pub fn hit(&mut self, time_usec: u64)
        ensures
            *final(self) == spec_press(*old(self), time_usec),
            final(self).hit is Some,
            final(self).id == old(self).id,
    {
        if self.hit.is_none() {
            self.hit = Some(time_usec);
        }
    }

    /// Takes a velocity sample: completes the outstanding press, if any.
    pub fn record_velocity(&mut self, velocity: i32) -> (hit: Option<Hit>)
        ensures
            *final(self) == spec_sample(*old(self), velocity).0,
            hit == spec_sample(*old(self), velocity).1,
            hit is Some <==> old(self).hit is Some,
            final(self).hit is None,
            final(self).id == old(self).id,
    {
        match self.hit {
            Some(time_usec) => {
                self.hit = None;
                Some(Hit { tom_id: self.id, velocity, time_usec })
            },
            None => None,
        }
    }
}

impl Drums {
    /// Six pads, each at its own index.
    pub open spec fn well_formed(&self) -> bool {
        toms_well_formed(self.toms@)
    }

    /// A kit of six pads, none pressed.
    pub fn new() -> (drums: Drums)
        ensures
            drums.well_formed(),
            forall|i: int| 0 <= i < TOM_COUNT ==> (#[trigger] drums.toms@[i]).hit is None,
    {
        let mut toms: Vec<Tom> = Vec::new();
        let mut id: u8 = 0;
        while id < TOM_COUNT
            invariant
                id <= TOM_COUNT,
                toms@.len() == id as nat,
                forall|i: int| 0 <= i < toms@.len() ==> (#[trigger] toms@[i]) == (Tom { id: i as u8, hit: None }),
            decreases TOM_COUNT - id,
        {
            toms.push(Tom::new(id));
            id = id + 1;
        }
        Drums { toms }
    }

    /// Hands one controller event to the pad it belongs to. A code that
    /// belongs to no pad, a release, and a sample on a pad that was not
    /// pressed change nothing and give no hit.
    pub fn process_event(&mut self, event: RawEvent, time_usec: u64) -> (hit: Option<Hit>)
        requires
            old(self).well_formed(),
        ensures
            final(self).well_formed(),
            final(self).toms@ == spec_process_event(old(self).toms@, event, time_usec).0,
            hit == spec_process_event(old(self).toms@, event, time_usec).1,
            hit is Some ==> hit->0.well_formed(),
    {
        match event {
            RawEvent::ButtonPressed { code } => {
                match button_index(code) {
                    Some(index) => {
                        let mut tom = self.toms[index as usize];
                        tom.hit(time_usec);
                        self.toms.set(index as usize, tom);
                        None
                    },
                    None => None,
                }
            },
            RawEvent::AxisChanged { code, velocity } => {
                match axis_index(code) {
                    Some(index) => {
                        let mut tom = self.toms[index as usize];
                        let hit = tom.record_velocity(velocity);
                        self.toms.set(index as usize, tom);
                        hit
                    },
                    None => None,
                }
            },
            RawEvent::ButtonReleased { code } => None,
        }
    }
}

} // verus!
