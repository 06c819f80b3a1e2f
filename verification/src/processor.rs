//! One audio cycle: controller events in, ordered MIDI events out.

use vstd::prelude::*;
use crate::emit::{
    frames_ascend, is_stable_sort_of, lemma_sort_keeps_same_frame_order, sort_by_frame,
};
use crate::midi::{all_note_events, OutputEvent};
use crate::pad::{spec_process_event, Drums, Hit, TimedEvent, Tom};
use crate::scheduler::{
    lemma_collision_closes_first, not_due_in, spec_expiry_events, spec_hit_events,
    spec_note_off_event, spec_note_on_event, spec_pending_after_hit, NoteOffScheduler,
    PendingNoteOff,
};
use crate::timing::{
    event_age, note_off_due, spec_event_age, spec_is_due, spec_note_off_due, spec_to_frame,
    to_frame, CycleWindow,
};

verus! {

/// The kit and the notes that sound.
#[derive(Debug)]
pub struct Processor {
    pub drums: Drums,
    pub scheduler: NoteOffScheduler,
}

/// What a cycle works on: the pads, the notes that sound, and the events
/// made so far.
pub struct CycleState {
    pub toms: Seq<Tom>,
    pub pending: Seq<PendingNoteOff>,
    pub out: Seq<OutputEvent>,
}

/// Age of a hit at the moment `now_usec`.
pub open spec fn spec_hit_age(hit: Hit, now_usec: u64) -> u64 {
    spec_event_age(now_usec, hit.time_usec) as u64
}

/// Frame at which a hit sounds.
pub open spec fn spec_hit_frame(hit: Hit, now_usec: u64, cycle: CycleWindow) -> u32 {
    spec_to_frame(spec_hit_age(hit, now_usec) as int, cycle) as u32
}

/// Moment at which the note of a hit ends.
pub open spec fn spec_hit_due(hit: Hit, now_usec: u64, cycle: CycleWindow) -> u64 {
    spec_note_off_due(spec_hit_age(hit, now_usec), cycle) as u64
}

/// The state after one controller event: the event goes to its pad, and a
/// hit that it completes ends the pad's sounding notes and starts a new one.
pub open spec fn spec_handle_event(
    state: CycleState,
    event: TimedEvent,
    now_usec: u64,
    cycle: CycleWindow,
) -> CycleState {
    let (toms, hit) = spec_process_event(state.toms, event.event, event.time_usec);
    match hit {
        Some(hit) => CycleState {
            toms,
            pending: spec_pending_after_hit(
                state.pending,
                hit,
                spec_hit_due(hit, now_usec, cycle),
            ),
            out: state.out + spec_hit_events(
                state.pending,
                hit,
                spec_hit_frame(hit, now_usec, cycle),
            ),
        },
        None => CycleState { toms, pending: state.pending, out: state.out },
    }
}

/// The state after a run of controller events, taken in order.
pub open spec fn spec_handle_events(
    state: CycleState,
    events: Seq<TimedEvent>,
    now_usec: u64,
    cycle: CycleWindow,
) -> CycleState
    decreases events.len(),
{
    if events.len() == 0 {
        state
    } else {
        spec_handle_event(
            spec_handle_events(state, events.drop_last(), now_usec, cycle),
            events.last(),
            now_usec,
            cycle,
        )
    }
}

/// The state at the end of a cycle: the notes that end in it are taken out,
/// their note-offs made last.
pub open spec fn spec_expire(state: CycleState, cycle: CycleWindow) -> CycleState {
    CycleState {
        toms: state.toms,
        pending: state.pending.filter(not_due_in(cycle)),
        out: state.out + spec_expiry_events(state.pending, cycle),
    }
}

/// A whole cycle: the controller events in order, then the notes that end.
pub open spec fn spec_cycle(
    toms: Seq<Tom>,
    pending: Seq<PendingNoteOff>,
    events: Seq<TimedEvent>,
    now_usec: u64,
    cycle: CycleWindow,
) -> CycleState {
    spec_expire(
        spec_handle_events(
            CycleState { toms, pending, out: Seq::empty() },
            events,
            now_usec,
            cycle,
        ),
        cycle,
    )
}

/// Every event stands at a frame below the limit.
pub open spec fn frames_within(events: Seq<OutputEvent>, limit: u32) -> bool {
    forall|k: int| 0 <= k < events.len() ==> (#[trigger] events[k]).frame_offset < limit
}

/// A hit on a pad with a note sounding, whatever else the cycle sends: what
/// is written holds the old note's note-off before the new note-on, both at
/// the hit's frame.
pub proof fn lemma_retrigger_written_in_order(
    pending: Seq<PendingNoteOff>,
    hit: Hit,
    frame: u32,
    i: int,
    before: Seq<OutputEvent>,
    after: Seq<OutputEvent>,
    written: Seq<OutputEvent>,
)
    requires
        0 <= i < pending.len(),
        pending[i].tom_id == hit.tom_id,
        is_stable_sort_of(written, before + spec_hit_events(pending, hit, frame) + after),
    ensures
        exists|x: int, y: int|
            0 <= x < y < written.len() && #[trigger] written[x] == spec_note_off_event(
                frame,
                pending[i],
            ) && #[trigger] written[y] == spec_note_on_event(frame, hit),
{
    let sent = spec_hit_events(pending, hit, frame);
    let made = before + sent + after;
    lemma_collision_closes_first(pending, hit, frame, i);
    let k = choose|k: int|
        0 <= k < sent.len() - 1 && #[trigger] sent[k] == spec_note_off_event(frame, pending[i]);
    let a = before.len() + k;
    let b = before.len() + sent.len() - 1;
    assert(made[a] == sent[k]);
    assert(made[b] == sent.last());
    lemma_sort_keeps_same_frame_order(written, made, a, b);
}

impl Processor {
    /// The kit and the sounding notes are both well formed.
    pub open spec fn well_formed(&self) -> bool {
        self.drums.well_formed() && self.scheduler.well_formed()
    }

    /// The state of this processor with the events made so far.
    pub open spec fn state(&self, out: Seq<OutputEvent>) -> CycleState {
        CycleState { toms: self.drums.toms@, pending: self.scheduler.pending@, out }
    }

    /// A processor with six pads, none pressed, and no note sounding.
    pub fn new() -> (processor: Processor)
        ensures
            processor.well_formed(),
            processor.scheduler.pending@ == Seq::<PendingNoteOff>::empty(),
            forall|i: int| 0 <= i < processor.drums.toms@.len() ==> (
            #[trigger] processor.drums.toms@[i]).hit is None,
    {
        Processor { drums: Drums::new(), scheduler: NoteOffScheduler::new() }
    }

    /// Takes one controller event and appends what it sends.
    pub fn handle_event(
        &mut self,
        event: &TimedEvent,
        now_usec: u64,
        cycle: &CycleWindow,
        out: &mut Vec<OutputEvent>,
    )
        requires
            old(self).well_formed(),
            cycle.well_formed(),
        ensures
            final(self).well_formed(),
            final(self).state(final(out)@) == spec_handle_event(
                old(self).state(old(out)@),
                *event,
                now_usec,
                *cycle,
            ),
            frames_within(old(out)@, cycle.frames_in_cycle) ==> frames_within(
                final(out)@,
                cycle.frames_in_cycle,
            ),
            all_note_events(old(out)@) ==> all_note_events(final(out)@),
    {
        match self.drums.process_event(event.event, event.time_usec) {
            Some(hit) => {
                let age: u64 = event_age(now_usec, hit.time_usec);
                let frame: u32 = to_frame(age, cycle);
                let due: u64 = note_off_due(age, cycle);
                self.scheduler.note_on(&hit, frame, due, out);
            },
            None => {},
        }
    }

    /// Runs one cycle. The controller events are taken in order: each
    /// completed hit ends the pad's sounding note and starts a new one at the
    /// frame of its press. Then every note that ends in the cycle gets its
    /// note-off. What comes back is ordered by frame, events of one frame in
    /// the order in which they were made.
    pub fn process(&mut self, events: &Vec<TimedEvent>, now_usec: u64, cycle: &CycleWindow) -> (sent:
        Vec<OutputEvent>)
        requires
            old(self).well_formed(),
            cycle.well_formed(),
        ensures
            final(self).well_formed(),
            final(self).drums.toms@ == spec_cycle(
                old(self).drums.toms@,
                old(self).scheduler.pending@,
                events@,
                now_usec,
                *cycle,
            ).toms,
            final(self).scheduler.pending@ == spec_cycle(
                old(self).drums.toms@,
                old(self).scheduler.pending@,
                events@,
                now_usec,
                *cycle,
            ).pending,
            is_stable_sort_of(
                sent@,
                spec_cycle(
                    old(self).drums.toms@,
                    old(self).scheduler.pending@,
                    events@,
                    now_usec,
                    *cycle,
                ).out,
            ),
            frames_ascend(sent@),
            frames_within(sent@, cycle.frames_in_cycle),
            all_note_events(sent@),
            forall|i: int|
                0 <= i < final(self).scheduler.pending@.len() ==> !spec_is_due(
                    (#[trigger] final(self).scheduler.pending@[i]).due_usec,
                    *cycle,
                ),
    {
        let ghost start = self.state(Seq::empty());
        let mut out: Vec<OutputEvent> = Vec::new();
        let mut i: usize = 0;
        proof {
            assert(events@.take(0) =~= Seq::<TimedEvent>::empty());
            assert(out@ =~= Seq::<OutputEvent>::empty());
        }
        while i < events.len()
            invariant
                i <= events@.len(),
                self.well_formed(),
                cycle.well_formed(),
                self.state(out@) == spec_handle_events(
                    start,
                    events@.take(i as int),
                    now_usec,
                    *cycle,
                ),
                frames_within(out@, cycle.frames_in_cycle),
                all_note_events(out@),
            decreases events@.len() - i,
        {
            proof {
                let next = events@.take(i as int + 1);
                assert(next.drop_last() =~= events@.take(i as int));
                assert(next.last() == events@[i as int]);
            }
            self.handle_event(&events[i], now_usec, cycle, &mut out);
            i = i + 1;
        }
        assert(events@.take(i as int) =~= events@);
        self.scheduler.expire(cycle, &mut out);
        sort_by_frame(&out)
    }
}

} // verus!
