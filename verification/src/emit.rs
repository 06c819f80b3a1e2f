//! The order in which a cycle's events go out: by frame, and at one frame in
//! the order in which they were made.

use vstd::prelude::*;
use crate::midi::OutputEvent;

verus! {

/// Whether an event stands at the given frame.
pub open spec fn at_frame(frame: u32) -> spec_fn(OutputEvent) -> bool {
    |event: OutputEvent| event.frame_offset == frame
}

/// No event stands before one of an earlier frame.
pub open spec fn frames_ascend(events: Seq<OutputEvent>) -> bool {
    forall|i: int, j: int|
        0 <= i < j < events.len() ==> (#[trigger] events[i]).frame_offset <= (
        #[trigger] events[j]).frame_offset
}

/// Whether `sorted` holds the events of `events` by ascending frame, those of
/// one frame in the order they have in `events`.
pub open spec fn is_stable_sort_of(sorted: Seq<OutputEvent>, events: Seq<OutputEvent>) -> bool {
    &&& sorted.len() == events.len()
    &&& frames_ascend(sorted)
    &&& forall|frame: u32| #[trigger]
        sorted.filter(at_frame(frame)) == events.filter(at_frame(frame))
}

/// Placing one more event behind the last of those not later than it keeps
/// the order.
pub proof fn lemma_insert_keeps_order(
    sorted: Seq<OutputEvent>,
    events: Seq<OutputEvent>,
    event: OutputEvent,
    at: int,
)
    requires
        is_stable_sort_of(sorted, events),
        0 <= at <= sorted.len(),
        forall|k: int| 0 <= k < at ==> (#[trigger] sorted[k]).frame_offset <= event.frame_offset,
        forall|k: int|
            at <= k < sorted.len() ==> (#[trigger] sorted[k]).frame_offset > event.frame_offset,
    ensures
        is_stable_sort_of(sorted.insert(at, event), events.push(event)),
{
    let after = sorted.insert(at, event);
    let head = sorted.take(at);
    let tail = sorted.skip(at);
    assert(sorted =~= head + tail);
    assert(after =~= head.push(event) + tail);
    assert forall|i: int, j: int| 0 <= i < j < after.len() implies (#[trigger] after[i]).frame_offset
        <= (#[trigger] after[j]).frame_offset by {
        if i < at {
            assert(after[i] == sorted[i]);
        } else if i > at {
            assert(after[i] == sorted[i - 1]);
        }
        if j < at {
            assert(after[j] == sorted[j]);
        } else if j > at {
            assert(after[j] == sorted[j - 1]);
        }
    }
    assert forall|frame: u32| #[trigger]
        after.filter(at_frame(frame)) == events.push(event).filter(at_frame(frame)) by {
        let here = at_frame(frame);
        assert(sorted.filter(here) == events.filter(here));
        Seq::filter_distributes_over_add(head, tail, here);
        Seq::filter_distributes_over_add(head.push(event), tail, here);
        head.lemma_filter_push(event, here);
        events.lemma_filter_push(event, here);
        if event.frame_offset == frame {
            assert forall|k: int| 0 <= k < tail.len() implies !here(#[trigger] tail[k]) by {
                assert(tail[k] == sorted[at + k]);
            }
            assert(tail.all(|later: OutputEvent| !here(later)));
            tail.lemma_all_neg_filter_empty(here);
            assert(tail.filter(here) =~= Seq::<OutputEvent>::empty());
            assert(head.filter(here) + tail.filter(here) =~= head.filter(here));
            assert(head.filter(here).push(event) + tail.filter(here) =~= head.filter(here).push(
                event,
            ));
        }
    }
}

/// Two stable sorts of the same events are the same sequence.
pub proof fn lemma_stable_sort_unique(
    first: Seq<OutputEvent>,
    second: Seq<OutputEvent>,
    events: Seq<OutputEvent>,
)
    requires
        is_stable_sort_of(first, events),
        is_stable_sort_of(second, events),
    ensures
        first == second,
    decreases first.len(),
{
    if first.len() > 0 {
        let last = first.last();
        let here = at_frame(last.frame_offset);
        let other = second.last();
        let there = at_frame(other.frame_offset);
        lemma_last_of_frame(first, here);
        lemma_last_of_frame(second, there);
        assert(first.filter(here) == events.filter(here));
        assert(second.filter(here) == events.filter(here));
        assert(first.filter(there) == events.filter(there));
        assert(second.filter(there) == events.filter(there));
        // The last frame of each occurs in the other, so the two are one.
        first.lemma_filter_len(there);
        second.lemma_filter_len(here);
        lemma_member_of_filter(first, there);
        lemma_member_of_filter(second, here);
        assert(last.frame_offset == other.frame_offset);
        assert(last == other);
        let rest_events = first.drop_last();
        lemma_drop_last_sorted(first, rest_events);
        assert forall|frame: u32| #[trigger]
            second.drop_last().filter(at_frame(frame)) == rest_events.filter(at_frame(frame)) by {
            let pred = at_frame(frame);
            assert(first.filter(pred) == events.filter(pred));
            assert(second.filter(pred) == events.filter(pred));
            assert(first =~= first.drop_last().push(last));
            assert(second =~= second.drop_last().push(last));
            first.drop_last().lemma_filter_push(last, pred);
            second.drop_last().lemma_filter_push(last, pred);
            if pred(last) {
                assert(first.drop_last().filter(pred) =~= first.filter(pred).drop_last());
                assert(second.drop_last().filter(pred) =~= second.filter(pred).drop_last());
            }
        }
        assert(is_stable_sort_of(second.drop_last(), rest_events));
        lemma_stable_sort_unique(first.drop_last(), second.drop_last(), rest_events);
        assert(first =~= first.drop_last().push(last));
        assert(second =~= second.drop_last().push(last));
    } else {
        assert(first =~= second);
    }
}

/// The last event of a sequence is the last of those that share its frame.
proof fn lemma_last_of_frame(events: Seq<OutputEvent>, here: spec_fn(OutputEvent) -> bool)
    requires
        events.len() > 0,
        here(events.last()),
    ensures
        events.filter(here).len() > 0,
        events.filter(here).last() == events.last(),
{
    assert(events =~= events.drop_last().push(events.last()));
    events.drop_last().lemma_filter_push(events.last(), here);
}

/// Where some event of a sequence passes a test, the last one that passes
/// stands in the sequence and passes it.
proof fn lemma_member_of_filter(events: Seq<OutputEvent>, pred: spec_fn(OutputEvent) -> bool)
    requires
        events.filter(pred).len() > 0,
    ensures
        pred(events.filter(pred).last()),
        events.contains(events.filter(pred).last()),
{
    let kept = events.filter(pred);
    events.lemma_filter_pred(pred, kept.len() - 1);
    assert(kept.contains(kept.last()));
    events.lemma_filter_contains_rev(pred, kept.last());
}

/// A sorted sequence without its last event is a stable sort of itself.
proof fn lemma_drop_last_sorted(sorted: Seq<OutputEvent>, rest: Seq<OutputEvent>)
    requires
        sorted.len() > 0,
        frames_ascend(sorted),
        rest == sorted.drop_last(),
    ensures
        is_stable_sort_of(rest, rest),
{
    assert forall|i: int, j: int| 0 <= i < j < rest.len() implies (#[trigger] rest[i]).frame_offset
        <= (#[trigger] rest[j]).frame_offset by {
        assert(rest[i] == sorted[i]);
        assert(rest[j] == sorted[j]);
    }
}

/// Two events that pass a test stand, among those that pass, in the order
/// they have in the whole sequence.
proof fn lemma_filter_keeps_order(
    events: Seq<OutputEvent>,
    pred: spec_fn(OutputEvent) -> bool,
    a: int,
    b: int,
)
    requires
        0 <= a < b < events.len(),
        pred(events[a]),
        pred(events[b]),
    ensures
        exists|p: int, q: int|
            0 <= p < q < events.filter(pred).len() && #[trigger] events.filter(pred)[p]
                == events[a] && #[trigger] events.filter(pred)[q] == events[b],
    decreases events.len(),
{
    let rest = events.drop_last();
    let last = events.last();
    let kept = events.filter(pred);
    assert(events =~= rest.push(last));
    rest.lemma_filter_push(last, pred);
    if b == events.len() - 1 {
        rest.lemma_filter_contains(pred, a);
        let p = choose|p: int| 0 <= p < rest.filter(pred).len() && rest.filter(pred)[p] == rest[a];
        let q = rest.filter(pred).len() as int;
        assert(kept[p] == events[a] && kept[q] == events[b]);
    } else {
        lemma_filter_keeps_order(rest, pred, a, b);
        let (p, q) = choose|p: int, q: int|
            0 <= p < q < rest.filter(pred).len() && #[trigger] rest.filter(pred)[p] == rest[a]
                && #[trigger] rest.filter(pred)[q] == rest[b];
        assert(kept[p] == events[a] && kept[q] == events[b]);
    }
}

/// Two events among those that pass a test stand in the whole sequence in
/// the order they have there.
proof fn lemma_filter_order_in_whole(
    events: Seq<OutputEvent>,
    pred: spec_fn(OutputEvent) -> bool,
    p: int,
    q: int,
)
    requires
        0 <= p < q < events.filter(pred).len(),
    ensures
        exists|a: int, b: int|
            0 <= a < b < events.len() && #[trigger] events[a] == events.filter(pred)[p]
                && #[trigger] events[b] == events.filter(pred)[q],
    decreases events.len(),
{
    let kept = events.filter(pred);
    events.lemma_filter_len(pred);
    let rest = events.drop_last();
    let last = events.last();
    assert(events =~= rest.push(last));
    rest.lemma_filter_push(last, pred);
    if pred(last) && q == kept.len() - 1 {
        assert(rest.filter(pred)[p] == kept[p]);
        assert(rest.filter(pred).contains(kept[p]));
        rest.lemma_filter_contains_rev(pred, kept[p]);
        let a = choose|a: int| 0 <= a < rest.len() && rest[a] == kept[p];
        let b = events.len() - 1;
        assert(events[a] == kept[p] && events[b] == kept[q]);
    } else {
        lemma_filter_order_in_whole(rest, pred, p, q);
        let (a, b) = choose|a: int, b: int|
            0 <= a < b < rest.len() && #[trigger] rest[a] == rest.filter(pred)[p]
                && #[trigger] rest[b] == rest.filter(pred)[q];
        assert(events[a] == kept[p] && events[b] == kept[q]);
    }
}

/// Sorting keeps the order of events that share a frame: of two such events
/// the one made first is written first.
pub proof fn lemma_sort_keeps_same_frame_order(
    sorted: Seq<OutputEvent>,
    events: Seq<OutputEvent>,
    a: int,
    b: int,
)
    requires
        is_stable_sort_of(sorted, events),
        0 <= a < b < events.len(),
        events[a].frame_offset == events[b].frame_offset,
    ensures
        exists|x: int, y: int|
            0 <= x < y < sorted.len() && #[trigger] sorted[x] == events[a] && #[trigger] sorted[y]
                == events[b],
{
    let here = at_frame(events[a].frame_offset);
    assert(sorted.filter(here) == events.filter(here));
    lemma_filter_keeps_order(events, here, a, b);
    let (p, q) = choose|p: int, q: int|
        0 <= p < q < events.filter(here).len() && #[trigger] events.filter(here)[p] == events[a]
            && #[trigger] events.filter(here)[q] == events[b];
    lemma_filter_order_in_whole(sorted, here, p, q);
}

/// Orders the events of a cycle by frame; events of one frame keep the order
/// in which they were made.
pub fn sort_by_frame(events: &Vec<OutputEvent>) -> (sorted: Vec<OutputEvent>)
    ensures
        is_stable_sort_of(sorted@, events@),
        frames_ascend(sorted@),
        forall|k: int| 0 <= k < sorted@.len() ==> events@.contains(#[trigger] sorted@[k]),
{
    let mut sorted: Vec<OutputEvent> = Vec::new();
    let mut i: usize = 0;
    proof {
        assert(events@.take(0) =~= Seq::<OutputEvent>::empty());
        assert(sorted@ =~= events@.take(0));
    }
    while i < events.len()
        invariant
            i <= events@.len(),
            is_stable_sort_of(sorted@, events@.take(i as int)),
            forall|k: int| 0 <= k < sorted@.len() ==> events@.contains(#[trigger] sorted@[k]),
        decreases events@.len() - i,
    {
        let event = events[i];
        let mut at: usize = sorted.len();
        while at > 0 && sorted[at - 1].frame_offset > event.frame_offset
            invariant
                at <= sorted@.len(),
                forall|k: int|
                    at <= k < sorted@.len() ==> (#[trigger] sorted@[k]).frame_offset
                        > event.frame_offset,
            decreases at,
        {
            at = at - 1;
        }
        proof {
            assert forall|k: int| 0 <= k < at implies (#[trigger] sorted@[k]).frame_offset
                <= event.frame_offset by {
                if k < at - 1 {
                    assert(sorted@[k].frame_offset <= sorted@[at - 1].frame_offset);
                }
            }
            lemma_insert_keeps_order(sorted@, events@.take(i as int), event, at as int);
            assert(events@.take(i as int + 1) =~= events@.take(i as int).push(event));
        }
        let ghost before = sorted@;
        sorted.insert(at, event);
        proof {
            assert forall|k: int| 0 <= k < sorted@.len() implies events@.contains(
                #[trigger] sorted@[k],
            ) by {
                if k < at {
                    assert(sorted@[k] == before[k]);
                } else if k > at {
                    assert(sorted@[k] == before[k - 1]);
                } else {
                    assert(sorted@[k] == events@[i as int]);
                }
            }
        }
        i = i + 1;
    }
    assert(events@.take(i as int) =~= events@);
    sorted
}

} // verus!
