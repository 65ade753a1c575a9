//! The event log of a work item: which logs the lifecycle can produce, and
//! how much active time a log holds.

use crate::work_item::event::Event;
use crate::work_item::event_type::EventType;
use vstd::prelude::*;

verus! {

/// Whether the lifecycle lets an event of type `next` follow one of type `previous`:
/// work in progress is paused or finished, paused work is continued or
/// finished, and nothing follows the finish.
pub open spec fn allowed_after(previous: EventType, next: EventType) -> bool {
    match previous {
        EventType::Started | EventType::Continued => next == EventType::Paused || next
            == EventType::Finished,
        EventType::Paused => next == EventType::Continued || next == EventType::Finished,
        EventType::Finished => false,
    }
}

/// Whether the event at position `i + 1` may follow the one at position `i`: the
/// lifecycle allows its type there, and its timestamp is not the earlier one.
pub open spec fn follows(events: Seq<Event>, i: int) -> bool {
    &&& allowed_after(events[i].event_type, events[i + 1].event_type)
    &&& events[i].timestamp <= events[i + 1].timestamp
}

/// A log as the lifecycle produces it: it begins with `Started` at or after the
/// epoch, each event is allowed after the one before it, and the timestamps
/// never decrease.
pub open spec fn well_formed_log(events: Seq<Event>) -> bool {
    &&& events.len() > 0
    &&& events[0].event_type == EventType::Started
    &&& events[0].timestamp >= 0
    &&& forall|i: int| 0 <= i < events.len() - 1 ==> #[trigger] follows(events, i)
}

/// Length of the active interval that `opening` begins and `closing` ends, if
/// `opening` begins one.
pub open spec fn interval_between(opening: Event, closing: Event) -> int {
    if opening.event_type.is_start_like() {
        closing.timestamp - opening.timestamp
    } else {
        0
    }
}

/// Sum of the lengths of the closed active intervals of a log: each start-like
/// event paired with the event that follows it.
pub open spec fn closed_time(events: Seq<Event>) -> int
    decreases events.len(),
{
    if events.len() < 2 {
        0
    } else {
        closed_time(events.drop_last()) + interval_between(
            events[events.len() - 2],
            events[events.len() - 1],
        )
    }
}

/// Length of the interval that is still open at instant `now`: the time since the
/// last event if that event is start-like and `now` lies after it.
pub open spec fn open_time(events: Seq<Event>, now: int) -> int {
    if events.len() > 0 && events.last().event_type.is_start_like() && events.last().timestamp
        < now {
        now - events.last().timestamp
    } else {
        0
    }
}

/// Active time of a log as seen at instant `now`.
pub open spec fn time_taken_at(events: Seq<Event>, now: int) -> int {
    closed_time(events) + open_time(events, now)
}

/// In a well-formed log the timestamps are in ascending order throughout.
pub proof fn lemma_log_chronological(events: Seq<Event>, i: int, j: int)
    requires
        well_formed_log(events),
        0 <= i <= j < events.len(),
    ensures
        0 <= events[i].timestamp <= events[j].timestamp,
    decreases j,
{
    if i < j {
        lemma_log_chronological(events, i, j - 1);
        assert(follows(events, j - 1));
    } else if i > 0 {
        lemma_log_chronological(events, 0, i - 1);
        assert(follows(events, i - 1));
    }
}

/// Every non-empty prefix of a well-formed log is a well-formed log.
pub proof fn lemma_log_prefix(events: Seq<Event>, n: int)
    requires
        well_formed_log(events),
        0 < n <= events.len(),
    ensures
        well_formed_log(events.take(n)),
{
    let prefix = events.take(n);
    assert forall|i: int| 0 <= i < prefix.len() - 1 implies #[trigger] follows(prefix, i) by {
        assert(follows(events, i));
    }
}

/// The closed intervals of a well-formed log lie between its first and its last
/// event without overlap, so their sum is at least zero and at most the span
/// of the log.
pub proof fn lemma_closed_time_bounds(events: Seq<Event>)
    requires
        well_formed_log(events),
    ensures
        0 <= closed_time(events) <= events.last().timestamp - events[0].timestamp,
    decreases events.len(),
{
    if events.len() >= 2 {
        let n = events.len() as int;
        lemma_log_prefix(events, n - 1);
        assert(events.take(n - 1) =~= events.drop_last());
        lemma_closed_time_bounds(events.drop_last());
        assert(follows(events, n - 2));
    }
}

/// Appending an event that the lifecycle allows, at or after the last
/// timestamp, keeps a log well formed.
pub proof fn lemma_log_append(events: Seq<Event>, event: Event)
    requires
        well_formed_log(events),
        allowed_after(events.last().event_type, event.event_type),
        events.last().timestamp <= event.timestamp,
    ensures
        well_formed_log(events.push(event)),
        closed_time(events.push(event)) == closed_time(events) + interval_between(
            events.last(),
            event,
        ),
{
    let longer = events.push(event);
    assert(longer.drop_last() =~= events);
    assert forall|i: int| 0 <= i < longer.len() - 1 implies #[trigger] follows(longer, i) by {
        if i < events.len() - 1 {
            assert(follows(events, i));
        }
    }
}

/// Tells whether the events form a log that the lifecycle can produce.
pub fn is_well_formed_log(events: &Vec<Event>) -> (well_formed: bool)
    ensures
        well_formed == well_formed_log(events@),
{
    if events.len() == 0 {
        return false;
    }
    if events[0].event_type != EventType::Started || events[0].timestamp < 0 {
        return false;
    }
    let mut i: usize = 1;
    while i < events.len()
        invariant
            1 <= i <= events@.len(),
            events@[0].event_type == EventType::Started,
            events@[0].timestamp >= 0,
            forall|k: int| 0 <= k < i - 1 ==> #[trigger] follows(events@, k),
        decreases events@.len() - i,
    {
        let previous: Event = events[i - 1];
        let next: Event = events[i];
        let allowed: bool = match previous.event_type {
            EventType::Started | EventType::Continued => next.event_type == EventType::Paused
                || next.event_type == EventType::Finished,
            EventType::Paused => next.event_type == EventType::Continued || next.event_type
                == EventType::Finished,
            EventType::Finished => false,
        };
        if !allowed || previous.timestamp > next.timestamp {
            proof {
                assert(!follows(events@, i - 1));
            }
            return false;
        }
        i = i + 1;
    }
    true
}

} // verus!
