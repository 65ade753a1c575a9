//! Bringing the events of one item, as they come from storage, into the order
//! of their timestamps.

use crate::work_item::event::Event;
use vstd::prelude::*;

verus! {

/// The timestamps never decrease along the sequence.
pub open spec fn ascending(events: Seq<Event>) -> bool {
    forall|i: int, j: int| 0 <= i < j < events.len() ==> events[i].timestamp <= events[j].timestamp
}

/// Where an event with the given timestamp goes in a sorted sequence: behind
/// the last event that is not later than it.
pub open spec fn place_for(sorted: Seq<Event>, timestamp: i64) -> int
    decreases sorted.len(),
{
    if sorted.len() == 0 || sorted.last().timestamp <= timestamp {
        sorted.len() as int
    } else {
        place_for(sorted.drop_last(), timestamp)
    }
}

/// The events in ascending order of their timestamps; events with equal
/// timestamps stay in the order in which they came.
pub open spec fn chronological(events: Seq<Event>) -> Seq<Event>
    decreases events.len(),
{
    if events.len() == 0 {
        events
    } else {
        let rest = chronological(events.drop_last());
        rest.insert(place_for(rest, events.last().timestamp), events.last())
    }
}

/// The place for a timestamp lies within the sequence, every event from it on
/// is later than the timestamp, and the event before it is not.
pub proof fn lemma_place_for(sorted: Seq<Event>, timestamp: i64)
    ensures
        0 <= place_for(sorted, timestamp) <= sorted.len(),
        forall|k: int|
            place_for(sorted, timestamp) <= k < sorted.len() ==> sorted[k].timestamp > timestamp,
        place_for(sorted, timestamp) > 0 ==> sorted[place_for(sorted, timestamp) - 1].timestamp
            <= timestamp,
    decreases sorted.len(),
{
    if !(sorted.len() == 0 || sorted.last().timestamp <= timestamp) {
        let front = sorted.drop_last();
        lemma_place_for(front, timestamp);
        assert forall|k: int| place_for(sorted, timestamp) <= k < sorted.len()
            implies sorted[k].timestamp
            > timestamp by {
            if k < front.len() {
                assert(front[k].timestamp > timestamp);
            }
        }
    }
}

/// Putting an event at its place keeps a sorted sequence sorted.
pub proof fn lemma_insert_keeps_ascending(sorted: Seq<Event>, event: Event)
    requires
        ascending(sorted),
    ensures
        ascending(sorted.insert(place_for(sorted, event.timestamp), event)),
        ascending(sorted.push(event)) ==> place_for(sorted, event.timestamp) == sorted.len(),
{
    let place = place_for(sorted, event.timestamp);
    let longer = sorted.insert(place, event);
    lemma_place_for(sorted, event.timestamp);
    assert forall|i: int, j: int| 0 <= i < j < longer.len() implies longer[i].timestamp
        <= longer[j].timestamp by {
        if j == place {
            if i < place - 1 {
                assert(sorted[i].timestamp <= sorted[place - 1].timestamp);
            }
        } else if i == place {
        } else if i < place && j > place {
            assert(sorted[i].timestamp <= sorted[j - 1].timestamp);
        } else if i > place {
            assert(sorted[i - 1].timestamp <= sorted[j - 1].timestamp);
        }
    }
    if ascending(sorted.push(event)) && place < sorted.len() {
        let pushed = sorted.push(event);
        assert(pushed[place].timestamp <= pushed[sorted.len() as int].timestamp);
    }
}

/// The chronological arrangement is sorted and holds exactly the events that came.
pub proof fn lemma_chronological(events: Seq<Event>)
    ensures
        ascending(chronological(events)),
        chronological(events).len() == events.len(),
        chronological(events).to_multiset() == events.to_multiset(),
    decreases events.len(),
{
    if events.len() == 0 {
    } else {
        let rest = chronological(events.drop_last());
        lemma_chronological(events.drop_last());
        lemma_place_for(rest, events.last().timestamp);
        lemma_insert_keeps_ascending(rest, events.last());
        vstd::seq_lib::to_multiset_insert(
            rest,
            place_for(rest, events.last().timestamp),
            events.last(),
        );
        assert(events =~= events.drop_last().push(events.last()));
        vstd::seq_lib::to_multiset_build(events.drop_last(), events.last());
    }
}

/// Events that come in the order of their timestamps stay as they are.
pub proof fn lemma_chronological_of_ascending(events: Seq<Event>)
    requires
        ascending(events),
    ensures
        chronological(events) == events,
    decreases events.len(),
{
    if events.len() > 0 {
        let front = events.drop_last();
        assert forall|i: int, j: int| 0 <= i < j < front.len() implies front[i].timestamp
            <= front[j].timestamp by {
            assert(events[i].timestamp <= events[j].timestamp);
        }
        lemma_chronological_of_ascending(front);
        assert(front.push(events.last()) =~= events);
        lemma_insert_keeps_ascending(front, events.last());
        assert(front.insert(front.len() as int, events.last()) =~= events);
    }
}

/// Sorts the events by their timestamp; events with equal timestamps stay in
/// the order in which they came.
pub fn sort_events(events: &Vec<Event>) -> (sorted: Vec<Event>)
    ensures
        sorted@ == chronological(events@),
{
    let mut sorted: Vec<Event> = Vec::new();
    let mut i: usize = 0;
    proof {
        assert(events@.take(0) =~= Seq::<Event>::empty());
    }
    while i < events.len()
        invariant
            i <= events@.len(),
            sorted@ == chronological(events@.take(i as int)),
        decreases events@.len() - i,
    {
        let event: Event = events[i];
        let mut place: usize = sorted.len();
        proof {
            lemma_chronological(events@.take(i as int));
            assert(sorted@.take(place as int) =~= sorted@);
        }
        while place > 0 && sorted[place - 1].timestamp > event.timestamp
            invariant
                place <= sorted@.len(),
                place_for(sorted@.take(place as int), event.timestamp) == place_for(
                    sorted@,
                    event.timestamp,
                ),
            decreases place,
        {
            proof {
                assert(sorted@.take(place as int).drop_last() =~= sorted@.take(place - 1));
            }
            place = place - 1;
        }
        proof {
            assert(events@.take(i + 1).drop_last() =~= events@.take(i as int));
            assert(events@.take(i + 1).last() == event);
        }
        sorted.insert(place, event);
        i = i + 1;
    }
    proof {
        assert(events@.take(events@.len() as int) =~= events@);
    }
    sorted
}

} // verus!
