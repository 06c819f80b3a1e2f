//! Notes that sound and the moments at which they end.

use vstd::prelude::*;
use crate::midi::{
    all_note_events, note_number, note_off_status, note_on_status, spec_note,
    spec_note_off_status, spec_note_on_status, spec_velocity_byte, velocity_byte, OutputEvent,
    MAX_VELOCITY, TOM_COUNT,
};
use crate::pad::Hit;
use crate::timing::{expiry_frame, is_due, spec_expiry_frame, spec_is_due, CycleWindow};

verus! {

/// A note that sounds: its pad, the velocity it was struck with, and the
/// moment at which it ends.
#[derive(Clone, Copy, Debug, PartialEq, Eq, Structural)]
pub struct PendingNoteOff {
    pub tom_id: u8,
    pub velocity: u8,
    pub due_usec: u64,
}

/// The notes that sound, in the order in which they began.
#[derive(Debug)]
pub struct NoteOffScheduler {
    pub pending: Vec<PendingNoteOff>,
}

/// The note-off that ends a sounding note, at the given frame.
pub open spec fn spec_note_off_event(frame: u32, entry: PendingNoteOff) -> OutputEvent {
    OutputEvent {
        frame_offset: frame,
        status: spec_note_off_status(),
        note: spec_note(entry.tom_id) as u8,
        velocity: entry.velocity,
    }
}

/// The note-on of a hit, at the given frame.
pub open spec fn spec_note_on_event(frame: u32, hit: Hit) -> OutputEvent {
    OutputEvent {
        frame_offset: frame,
        status: spec_note_on_status(),
        note: spec_note(hit.tom_id) as u8,
        velocity: spec_velocity_byte(hit.velocity as int) as u8,
    }
}

/// The entry that a hit leaves behind.
pub open spec fn spec_pending_of(hit: Hit, due_usec: u64) -> PendingNoteOff {
    PendingNoteOff {
        tom_id: hit.tom_id,
        velocity: spec_velocity_byte(hit.velocity as int) as u8,
        due_usec,
    }
}

/// Whether an entry belongs to the given pad.
pub open spec fn on_tom(tom_id: u8) -> spec_fn(PendingNoteOff) -> bool {
    |entry: PendingNoteOff| entry.tom_id == tom_id
}

/// Whether an entry belongs to another pad than the given one.
pub open spec fn off_tom(tom_id: u8) -> spec_fn(PendingNoteOff) -> bool {
    |entry: PendingNoteOff| entry.tom_id != tom_id
}

/// Whether an entry ends in the cycle.
pub open spec fn due_in(cycle: CycleWindow) -> spec_fn(PendingNoteOff) -> bool {
    |entry: PendingNoteOff| spec_is_due(entry.due_usec, cycle)
}

/// Whether an entry ends outside the cycle.
pub open spec fn not_due_in(cycle: CycleWindow) -> spec_fn(PendingNoteOff) -> bool {
    |entry: PendingNoteOff| !spec_is_due(entry.due_usec, cycle)
}

/// The note-offs that close the sounding notes of a pad, all at one frame.
pub open spec fn spec_closing_events(pending: Seq<PendingNoteOff>, tom_id: u8, frame: u32) -> Seq<
    OutputEvent,
> {
    pending.filter(on_tom(tom_id)).map_values(
        |entry: PendingNoteOff| spec_note_off_event(frame, entry),
    )
}

/// The note-offs of the notes that end in the cycle, each at the frame of
/// its moment.
pub open spec fn spec_expiry_events(pending: Seq<PendingNoteOff>, cycle: CycleWindow) -> Seq<
    OutputEvent,
> {
    pending.filter(due_in(cycle)).map_values(
        |entry: PendingNoteOff|
            spec_note_off_event(spec_expiry_frame(entry.due_usec, cycle) as u32, entry),
    )
}

/// The sounding notes after a hit: those of the pad are gone, the new one
/// comes last.
pub open spec fn spec_pending_after_hit(
    pending: Seq<PendingNoteOff>,
    hit: Hit,
    due_usec: u64,
) -> Seq<PendingNoteOff> {
    pending.filter(off_tom(hit.tom_id)).push(spec_pending_of(hit, due_usec))
}

/// What a hit sends: first the note-offs of the pad's sounding notes, then
/// its note-on, all at the hit's frame.
pub open spec fn spec_hit_events(pending: Seq<PendingNoteOff>, hit: Hit, frame: u32) -> Seq<
    OutputEvent,
> {
    spec_closing_events(pending, hit.tom_id, frame).push(spec_note_on_event(frame, hit))
}

/// Every entry names a pad of the kit and holds a velocity that a MIDI
/// message can carry, and no pad has two notes sounding.
pub open spec fn pending_well_formed(pending: Seq<PendingNoteOff>) -> bool {
    &&& forall|i: int| 0 <= i < pending.len() ==> (#[trigger] pending[i]).tom_id < TOM_COUNT
    &&& forall|i: int| 0 <= i < pending.len() ==> (#[trigger] pending[i]).velocity <= MAX_VELOCITY
    &&& forall|i: int, j: int|
        0 <= i < j < pending.len() ==> (#[trigger] pending[i]).tom_id != (#[trigger] pending[j]).tom_id
}

/// Whether `kept` holds entries of `before`, in their order: entry `j` of
/// `kept` is entry `places[j]` of `before`.
spec fn picks(kept: Seq<PendingNoteOff>, before: Seq<PendingNoteOff>, places: Seq<int>) -> bool {
    &&& places.len() == kept.len()
    &&& forall|j: int| 0 <= j < kept.len() ==> 0 <= (#[trigger] places[j]) < before.len()
    &&& forall|j: int| 0 <= j < kept.len() ==> (#[trigger] kept[j]) == before[places[j]]
    &&& forall|j: int, k: int| 0 <= j < k < kept.len() ==> (#[trigger] places[j]) < (#[trigger] places[k])
}

/// Entries picked in order from a well-formed sequence are well formed.
proof fn lemma_picks_well_formed(
    kept: Seq<PendingNoteOff>,
    before: Seq<PendingNoteOff>,
    places: Seq<int>,
)
    requires
        pending_well_formed(before),
        picks(kept, before, places),
    ensures
        pending_well_formed(kept),
{
    assert forall|i: int| 0 <= i < kept.len() implies (#[trigger] kept[i]).tom_id < TOM_COUNT by {
        assert(kept[i] == before[places[i]]);
    }
    assert forall|i: int| 0 <= i < kept.len() implies (#[trigger] kept[i]).velocity
        <= MAX_VELOCITY by {
        assert(kept[i] == before[places[i]]);
    }
    assert forall|i: int, j: int| 0 <= i < j < kept.len() implies (#[trigger] kept[i]).tom_id != (
    #[trigger] kept[j]).tom_id by {
        assert(places[i] < places[j]);
        assert(kept[i] == before[places[i]]);
        assert(kept[j] == before[places[j]]);
    }
}

/// A hit on a pad with a note sounding sends that note's note-off before its
/// own note-on: the note-on comes last, everything before it is a note-off
/// of the same pad at the same frame, and the sounding note's is among them.
pub proof fn lemma_collision_closes_first(
    pending: Seq<PendingNoteOff>,
    hit: Hit,
    frame: u32,
    i: int,
)
    requires
        0 <= i < pending.len(),
        pending[i].tom_id == hit.tom_id,
    ensures
        ({
            let sent = spec_hit_events(pending, hit, frame);
            &&& sent.len() >= 2
            &&& sent.last() == spec_note_on_event(frame, hit)
            &&& exists|k: int|
                0 <= k < sent.len() - 1 && #[trigger] sent[k] == spec_note_off_event(
                    frame,
                    pending[i],
                )
            &&& forall|k: int|
                0 <= k < sent.len() - 1 ==> {
                    &&& (#[trigger] sent[k]).frame_offset == frame
                    &&& sent[k].status == spec_note_off_status()
                    &&& sent[k].note == spec_note_on_event(frame, hit).note
                }
        }),
{
    let closed = pending.filter(on_tom(hit.tom_id));
    let sent = spec_hit_events(pending, hit, frame);
    assert(on_tom(hit.tom_id)(pending[i]));
    pending.lemma_filter_contains(on_tom(hit.tom_id), i);
    let k = choose|k: int| 0 <= k < closed.len() && closed[k] == pending[i];
    assert(sent[k] == spec_note_off_event(frame, pending[i]));
    assert forall|k: int| 0 <= k < sent.len() - 1 implies {
        &&& (#[trigger] sent[k]).frame_offset == frame
        &&& sent[k].status == spec_note_off_status()
        &&& sent[k].note == spec_note_on_event(frame, hit).note
    } by {
        pending.lemma_filter_pred(on_tom(hit.tom_id), k);
        assert(sent[k] == spec_note_off_event(frame, closed[k]));
    }
}

/// A note that a hit has closed is gone: closing the pad once more sends
/// nothing.
pub proof fn lemma_closed_notes_are_gone(pending: Seq<PendingNoteOff>, tom_id: u8, frame: u32)
    ensures
        spec_closing_events(pending.filter(off_tom(tom_id)), tom_id, frame) == Seq::<
            OutputEvent,
        >::empty(),
{
    let kept = pending.filter(off_tom(tom_id));
    assert forall|k: int| 0 <= k < kept.len() implies !on_tom(tom_id)(#[trigger] kept[k]) by {
        pending.lemma_filter_pred(off_tom(tom_id), k);
    }
    assert(kept.all(|entry: PendingNoteOff| !on_tom(tom_id)(entry)));
    kept.lemma_all_neg_filter_empty(on_tom(tom_id));
    assert(spec_closing_events(kept, tom_id, frame) =~= Seq::<OutputEvent>::empty());
}

/// A note that has ended in a cycle is gone: ending the notes of that cycle
/// once more sends nothing.
pub proof fn lemma_expired_notes_are_gone(pending: Seq<PendingNoteOff>, cycle: CycleWindow)
    ensures
        spec_expiry_events(pending.filter(not_due_in(cycle)), cycle) == Seq::<OutputEvent>::empty(),
{
    let kept = pending.filter(not_due_in(cycle));
    assert forall|k: int| 0 <= k < kept.len() implies !due_in(cycle)(#[trigger] kept[k]) by {
        pending.lemma_filter_pred(not_due_in(cycle), k);
    }
    assert(kept.all(|entry: PendingNoteOff| !due_in(cycle)(entry)));
    kept.lemma_all_neg_filter_empty(due_in(cycle));
    assert(spec_expiry_events(kept, cycle) =~= Seq::<OutputEvent>::empty());
}

/// Builds the note-off that ends a sounding note.
fn note_off_event(frame: u32, entry: &PendingNoteOff) -> (event: OutputEvent)
    requires
        entry.tom_id < TOM_COUNT,
    ensures
        event == spec_note_off_event(frame, *entry),
{
    OutputEvent {
        frame_offset: frame,
        status: note_off_status(),
        note: note_number(entry.tom_id),
        velocity: entry.velocity,
    }
}

/// Builds the note-on of a hit.
fn note_on_event(frame: u32, hit: &Hit) -> (event: OutputEvent)
    requires
        hit.well_formed(),
    ensures
        event == spec_note_on_event(frame, *hit),
{
    OutputEvent {
        frame_offset: frame,
        status: note_on_status(),
        note: note_number(hit.tom_id),
        velocity: velocity_byte(hit.velocity),
    }
}

impl NoteOffScheduler {
    /// Every entry names a pad of the kit and holds a velocity that a MIDI
    /// message can carry, and no pad has two notes sounding.
    pub open spec fn well_formed(&self) -> bool {
        pending_well_formed(self.pending@)
    }

    /// A scheduler with no note sounding.
    pub fn new() -> (scheduler: NoteOffScheduler)
        ensures
            scheduler.pending@ == Seq::<PendingNoteOff>::empty(),
            scheduler.well_formed(),
    {
        NoteOffScheduler { pending: Vec::new() }
    }

    /// Ends every sounding note of a pad: takes its entries out and appends a
    /// note-off for each, at the given frame, in the order in which the
    /// notes began.
    pub fn close_colliding(&mut self, tom_id: u8, frame: u32, out: &mut Vec<OutputEvent>)
        requires
            old(self).well_formed(),
        ensures
            final(self).pending@ == old(self).pending@.filter(off_tom(tom_id)),
            final(out)@ == old(out)@ + spec_closing_events(old(self).pending@, tom_id, frame),
            final(self).well_formed(),
            all_note_events(old(out)@) ==> all_note_events(final(out)@),
            forall|i: int|
                0 <= i < final(self).pending@.len() ==> (#[trigger] final(self).pending@[i]).tom_id
                    != tom_id,
    {
        let ghost before = self.pending@;
        let ghost sent = out@;
        let ghost mut places: Seq<int> = Seq::empty();
        let mut kept: Vec<PendingNoteOff> = Vec::new();
        let mut i: usize = 0;
        assert(before.take(0) =~= Seq::<PendingNoteOff>::empty());
        proof {
            before.take(0).lemma_filter_len(off_tom(tom_id));
            before.take(0).lemma_filter_len(on_tom(tom_id));
        }
        assert(out@ =~= sent + spec_closing_events(before.take(0), tom_id, frame));
        while i < self.pending.len()
            invariant
                i <= before.len(),
                self.pending@ == before,
                pending_well_formed(before),
                kept@ == before.take(i as int).filter(off_tom(tom_id)),
                out@ == sent + spec_closing_events(before.take(i as int), tom_id, frame),
                all_note_events(sent) ==> all_note_events(out@),
                picks(kept@, before, places),
                forall|j: int| 0 <= j < places.len() ==> (#[trigger] places[j]) < i,
                forall|j: int| 0 <= j < kept@.len() ==> (#[trigger] kept@[j]).tom_id != tom_id,
            decreases before.len() - i,
        {
            let entry = self.pending[i];
            proof {
                let seen = before.take(i as int);
                assert(before.take(i as int + 1) =~= seen.push(entry));
                seen.lemma_filter_push(entry, off_tom(tom_id));
                seen.lemma_filter_push(entry, on_tom(tom_id));
            }
            if entry.tom_id == tom_id {
                out.push(note_off_event(frame, &entry));
                assert(out@ =~= sent + spec_closing_events(
                    before.take(i as int + 1),
                    tom_id,
                    frame,
                ));
            } else {
                kept.push(entry);
                proof {
                    places = places.push(i as int);
                }
            }
            i = i + 1;
        }
        assert(before.take(i as int) =~= before);
        proof {
            lemma_picks_well_formed(kept@, before, places);
        }
        self.pending = kept;
    }

    /// Takes a hit: ends the pad's sounding notes, appends the note-on, and
    /// remembers when the new note ends.
    pub fn note_on(&mut self, hit: &Hit, frame: u32, due_usec: u64, out: &mut Vec<OutputEvent>)
        requires
            old(self).well_formed(),
            hit.well_formed(),
        ensures
            final(self).pending@ == spec_pending_after_hit(old(self).pending@, *hit, due_usec),
            final(out)@ == old(out)@ + spec_hit_events(old(self).pending@, *hit, frame),
            final(self).well_formed(),
            all_note_events(old(out)@) ==> all_note_events(final(out)@),
    {
        self.close_colliding(hit.tom_id, frame, out);
        out.push(note_on_event(frame, hit));
        self.pending.push(
            PendingNoteOff { tom_id: hit.tom_id, velocity: velocity_byte(hit.velocity), due_usec },
        );
        assert(out@ =~= old(out)@ + spec_hit_events(old(self).pending@, *hit, frame));
    }

    /// Ends every note whose moment lies in the cycle: takes its entry out
    /// and appends its note-off at the frame of that moment.
    pub fn expire(&mut self, cycle: &CycleWindow, out: &mut Vec<OutputEvent>)
        requires
            old(self).well_formed(),
            cycle.well_formed(),
        ensures
            final(self).pending@ == old(self).pending@.filter(not_due_in(*cycle)),
            final(out)@ == old(out)@ + spec_expiry_events(old(self).pending@, *cycle),
            final(self).well_formed(),
            all_note_events(old(out)@) ==> all_note_events(final(out)@),
            forall|i: int|
                0 <= i < final(self).pending@.len() ==> !spec_is_due(
                    (#[trigger] final(self).pending@[i]).due_usec,
                    *cycle,
                ),
    {
        let ghost before = self.pending@;
        let ghost sent = out@;
        let ghost mut places: Seq<int> = Seq::empty();
        let mut kept: Vec<PendingNoteOff> = Vec::new();
        let mut i: usize = 0;
        assert(before.take(0) =~= Seq::<PendingNoteOff>::empty());
        proof {
            before.take(0).lemma_filter_len(not_due_in(*cycle));
            before.take(0).lemma_filter_len(due_in(*cycle));
        }
        assert(out@ =~= sent + spec_expiry_events(before.take(0), *cycle));
        while i < self.pending.len()
            invariant
                i <= before.len(),
                self.pending@ == before,
                pending_well_formed(before),
                cycle.well_formed(),
                kept@ == before.take(i as int).filter(not_due_in(*cycle)),
                out@ == sent + spec_expiry_events(before.take(i as int), *cycle),
                all_note_events(sent) ==> all_note_events(out@),
                picks(kept@, before, places),
                forall|j: int| 0 <= j < places.len() ==> (#[trigger] places[j]) < i,
                forall|j: int|
                    0 <= j < kept@.len() ==> !spec_is_due((#[trigger] kept@[j]).due_usec, *cycle),
            decreases before.len() - i,
        {
            let entry = self.pending[i];
            proof {
                let seen = before.take(i as int);
                assert(before.take(i as int + 1) =~= seen.push(entry));
                seen.lemma_filter_push(entry, not_due_in(*cycle));
                seen.lemma_filter_push(entry, due_in(*cycle));
            }
            if is_due(entry.due_usec, cycle) {
                let frame = expiry_frame(entry.due_usec, cycle);
                out.push(note_off_event(frame, &entry));
                assert(out@ =~= sent + spec_expiry_events(before.take(i as int + 1), *cycle));
            } else {
                kept.push(entry);
                proof {
                    places = places.push(i as int);
                }
            }
            i = i + 1;
        }
        assert(before.take(i as int) =~= before);
        proof {
            lemma_picks_well_formed(kept@, before, places);
        }
        self.pending = kept;
    }
}

} // verus!
