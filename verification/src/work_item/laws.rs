//! What holds of the lifecycle and of the durations that it yields.

use crate::work_item::event::Event;
use crate::work_item::event_type::EventType;
use crate::work_item::log::{
    closed_time, lemma_closed_time_bounds, lemma_log_append, time_taken_at, well_formed_log,
};
use crate::work_item::status::Status;
use crate::work_item::work_item::WorkItemView;
use vstd::prelude::*;

verus! {

/// The active time of a well-formed log is never negative, at whatever instant
/// it is looked at.
pub proof fn lemma_time_taken_non_negative(events: Seq<Event>, now: int)
    requires
        well_formed_log(events),
    ensures
        time_taken_at(events, now) >= 0,
{
    lemma_closed_time_bounds(events);
}

/// A log of exactly one `Started` and one `Finished` event holds exactly the
/// time between the two, at whatever instant it is looked at.
pub proof fn lemma_time_taken_of_single_pair(started: i64, finished: i64, now: int)
    ensures
        time_taken_at(
            seq![
                Event { event_type: EventType::Started, timestamp: started },
                Event { event_type: EventType::Finished, timestamp: finished },
            ],
            now,
        ) == finished - started,
{
    let log = seq![
        Event { event_type: EventType::Started, timestamp: started },
        Event { event_type: EventType::Finished, timestamp: finished },
    ];
    assert(closed_time(log.drop_last()) == 0);
}

/// An item that is paused at `paused` and continued at `continued` is in
/// progress again with exactly these two events more, and at a later instant
/// `now` its active time is what it had closed before, the stretch up to the
/// pause, and the stretch since the continuation.
pub proof fn lemma_continue_after_pause(item: WorkItemView, paused: i64, continued: i64, now: i64)
    requires
        item.wf(),
        item.status == Status::InProgress,
        item.last_timestamp() <= paused <= continued <= now,
    ensures
        ({
            let resumed = item.appended(EventType::Paused, paused).appended(
                EventType::Continued,
                continued,
            );
            &&& resumed.wf()
            &&& resumed.status == Status::InProgress
            &&& resumed.events == item.events.push(
                Event { event_type: EventType::Paused, timestamp: paused },
            ).push(Event { event_type: EventType::Continued, timestamp: continued })
            &&& resumed.time_taken_at(now as int) == closed_time(item.events) + (paused
                - item.last_timestamp()) + (now - continued)
        }),
{
    let pause = Event { event_type: EventType::Paused, timestamp: paused };
    let resume = Event { event_type: EventType::Continued, timestamp: continued };
    lemma_log_append(item.events, pause);
    lemma_log_append(item.events.push(pause), resume);
}

/// An item that is started at `started`, paused at `paused` and continued at
/// `continued` has, at a later instant `now`, worked from the start to the
/// pause and from the continuation to `now`.
pub proof fn lemma_start_pause_continue(
    item: WorkItemView,
    started: i64,
    paused: i64,
    continued: i64,
    now: i64,
)
    requires
        item.wf(),
        item.events == seq![Event { event_type: EventType::Started, timestamp: started }],
        started <= paused <= continued <= now,
    ensures
        item.appended(EventType::Paused, paused).appended(
            EventType::Continued,
            continued,
        ).time_taken_at(now as int) == (paused - started) + (now - continued),
{
    lemma_continue_after_pause(item, paused, continued, now);
}

/// The status of a well-formed item tells which transitions its log allows:
/// pausing and finishing while in progress, continuing and finishing while
/// paused, nothing once done.
pub proof fn lemma_status_decides_transitions(item: WorkItemView, next: EventType)
    requires
        item.wf(),
    ensures
        crate::work_item::log::allowed_after(item.events.last().event_type, next) <==> match next {
            EventType::Started => false,
            EventType::Paused => item.status == Status::InProgress,
            EventType::Continued => item.status == Status::Paused,
            EventType::Finished => item.status != Status::Done,
        },
{
}

} // verus!
