use crate::calc::time_calculator::{
    calculate_unique_total_time, interval_markers, lemma_interval_appended, lemma_interval_behind,
    lemma_pooled_well_formed, lemma_total_within_span, lemma_union_bounds, unique_total_time,
    well_formed_markers, TimeEvent,
};
use crate::work_item::clock::get_current_timestamp;
use crate::work_item::event::Event;
use crate::work_item::log::{
    closed_time, lemma_log_chronological, lemma_log_prefix, time_taken_at, well_formed_log,
};
use crate::work_item::status::Status;
use crate::work_item::work_item::{WorkItem, WorkItemView};
use vstd::prelude::*;

verus! {

/// The markers of the closed active intervals of a log: for each start-like
/// event the start at its timestamp and the end at that of the next event.
pub open spec fn closed_markers(events: Seq<Event>) -> Seq<TimeEvent>
    decreases events.len(),
{
    if events.len() < 2 {
        Seq::empty()
    } else if events[events.len() - 2].event_type.is_start_like() {
        closed_markers(events.drop_last()) + interval_markers(
            events[events.len() - 2].timestamp,
            events[events.len() - 1].timestamp,
        )
    } else {
        closed_markers(events.drop_last())
    }
}

/// The later of the latest event of a log and the instant `now`.
pub open spec fn open_until(events: Seq<Event>, now: i64) -> i64 {
    if events.last().timestamp < now {
        now
    } else {
        events.last().timestamp
    }
}

/// The markers of the interval that is still open at the instant `now`, for a
/// log whose latest event is start-like: its start, and an end at `now`.
pub open spec fn open_markers(events: Seq<Event>, now: i64) -> Seq<TimeEvent> {
    if events.len() > 0 && events.last().event_type.is_start_like() {
        interval_markers(events.last().timestamp, open_until(events, now))
    } else {
        Seq::empty()
    }
}

/// The markers of all active intervals of a log as seen at the instant `now`.
pub open spec fn item_markers(events: Seq<Event>, now: i64) -> Seq<TimeEvent> {
    closed_markers(events) + open_markers(events, now)
}

/// The markers of all active intervals of the items, pooled.
pub open spec fn pooled_markers(items: Seq<WorkItemView>, now: i64) -> Seq<TimeEvent>
    decreases items.len(),
{
    if items.len() == 0 {
        Seq::empty()
    } else {
        pooled_markers(items.drop_last(), now) + item_markers(items.last().events, now)
    }
}

/// The views of the items.
pub open spec fn views_of(items: Seq<&WorkItem>) -> Seq<WorkItemView> {
    Seq::new(items.len(), |k: int| items[k]@)
}

/// Markers that are well formed and do not lie before the epoch.
spec fn sound_markers(markers: Seq<TimeEvent>) -> bool {
    &&& well_formed_markers(markers)
    &&& forall|k: int| 0 <= k < markers.len() ==> 0 <= (#[trigger] markers[k]).timestamp
}

/// Sound markers with the markers of one more interval after the epoch are sound.
proof fn lemma_sound_appended(markers: Seq<TimeEvent>, start: i64, end: i64)
    requires
        sound_markers(markers),
        0 <= start <= end,
    ensures
        sound_markers(markers + interval_markers(start, end)),
{
    lemma_interval_appended(markers, start, end);
    let longer = markers + interval_markers(start, end);
    assert forall|k: int| 0 <= k < longer.len() implies 0 <= (#[trigger] longer[k]).timestamp by {
        if k < markers.len() {
            assert(longer[k] == markers[k]);
        }
    }
}

/// The closed intervals of a well-formed log follow one another, none
/// reaching beyond the latest event, and their union is as long as their sum.
proof fn lemma_closed_markers(events: Seq<Event>)
    requires
        well_formed_log(events),
    ensures
        well_formed_markers(closed_markers(events)),
        forall|k: int|
            0 <= k < closed_markers(events).len() ==> (#[trigger] closed_markers(
                events,
            )[k]).timestamp <= events.last().timestamp,
        unique_total_time(closed_markers(events)) == closed_time(events),
    decreases events.len(),
{
    let n = events.len() as int;
    if n < 2 {
        let none = closed_markers(events);
        assert forall|t: int| crate::calc::time_calculator::depth_at(none, t) == 0 by {}
        assert(unique_total_time(none) == 0) by {
            lemma_total_within_span(none, i64::MAX);
        }
    } else {
        let front = events.drop_last();
        lemma_log_prefix(events, n - 1);
        assert(events.take(n - 1) =~= front);
        lemma_closed_markers(front);
        lemma_log_chronological(events, n - 2, n - 1);
        let before = closed_markers(front);
        if events[n - 2].event_type.is_start_like() {
            let start = events[n - 2].timestamp;
            let end = events[n - 1].timestamp;
            lemma_interval_appended(before, start, end);
            lemma_interval_behind(before, start, end);
            let all = before + interval_markers(start, end);
            assert forall|k: int| 0 <= k < all.len() implies (#[trigger] all[k]).timestamp
                <= events.last().timestamp by {
                if k < before.len() {
                    assert(all[k] == before[k]);
                }
            }
        }
    }
}

/// For a single item the union of its active intervals is the time taken on
/// it: the intervals of one log do not overlap.
pub proof fn lemma_item_total_is_time_taken(events: Seq<Event>, now: i64)
    requires
        well_formed_log(events),
    ensures
        well_formed_markers(item_markers(events, now)),
        unique_total_time(item_markers(events, now)) == time_taken_at(events, now as int),
{
    lemma_closed_markers(events);
    let closed = closed_markers(events);
    if events.last().event_type.is_start_like() {
        let start = events.last().timestamp;
        let end = open_until(events, now);
        lemma_interval_appended(closed, start, end);
        lemma_interval_behind(closed, start, end);
    } else {
        assert(closed + Seq::<TimeEvent>::empty() =~= closed);
    }
}

/// The times taken on the items, summed up.
pub open spec fn summed_time_taken(items: Seq<WorkItemView>, now: i64) -> int
    decreases items.len(),
{
    if items.len() == 0 {
        0
    } else {
        summed_time_taken(items.drop_last(), now) + items.last().time_taken_at(now as int)
    }
}

/// The total work time of several items counts no time twice: it is at most
/// the sum of the times taken on the items, and at least the time taken on
/// any one of them.
pub proof fn lemma_total_work_time_bounds(items: Seq<WorkItemView>, now: i64)
    requires
        forall|k: int| 0 <= k < items.len() ==> (#[trigger] items[k]).wf(),
    ensures
        well_formed_markers(pooled_markers(items, now)),
        unique_total_time(pooled_markers(items, now)) <= summed_time_taken(items, now),
        forall|k: int|
            0 <= k < items.len() ==> (#[trigger] items[k]).time_taken_at(now as int)
                <= unique_total_time(pooled_markers(items, now)),
    decreases items.len(),
{
    if items.len() == 0 {
        let none = pooled_markers(items, now);
        assert forall|t: int| crate::calc::time_calculator::depth_at(none, t) == 0 by {}
        lemma_total_within_span(none, i64::MAX);
    } else {
        let front = items.drop_last();
        let last = items.last();
        assert(items[items.len() - 1].wf());
        assert forall|k: int| 0 <= k < front.len() implies (#[trigger] front[k]).wf() by {
            assert(items[k].wf());
        }
        lemma_total_work_time_bounds(front, now);
        lemma_item_total_is_time_taken(last.events, now);
        let pooled = pooled_markers(front, now);
        let own = item_markers(last.events, now);
        lemma_pooled_well_formed(pooled, own);
        lemma_union_bounds(pooled, own);
        assert forall|k: int| 0 <= k < items.len() implies (#[trigger] items[k]).time_taken_at(
            now as int,
        ) <= unique_total_time(pooled_markers(items, now)) by {
            if k < front.len() {
                assert(front[k].time_taken_at(now as int) <= unique_total_time(pooled));
            }
        }
    }
}

/// Calculate the total work time of the passed items as seen at the instant
/// `now`: the time during which at least one of them was worked on. Time
/// during which several were worked on at once counts once. An item that is
/// in progress counts up to `now`.
pub fn calculate_total_work_time_at(items: &[&WorkItem], now: i64) -> (total: i64)
    requires
        forall|k: int| 0 <= k < items@.len() ==> (#[trigger] items@[k]).wf(),
    ensures
        total == unique_total_time(pooled_markers(views_of(items@), now)),
        total >= 0,
{
    let ghost views = views_of(items@);
    let mut time_events: Vec<TimeEvent> = Vec::new();
    let mut i: usize = 0;
    proof {
        assert(views.take(0) =~= Seq::<WorkItemView>::empty());
        assert(forall|t: int| crate::calc::time_calculator::depth_at(time_events@, t) == 0);
    }
    while i < items.len()
        invariant
            i <= items@.len(),
            views == views_of(items@),
            forall|k: int| 0 <= k < items@.len() ==> (#[trigger] items@[k]).wf(),
            time_events@ == pooled_markers(views.take(i as int), now),
            sound_markers(time_events@),
        decreases items@.len() - i,
    {
        let item: &WorkItem = items[i];
        let events: &[Event] = item.events();
        let ghost log = events@;
        let ghost pooled = time_events@;
        proof {
            assert(items@[i as int].wf());
            assert(views[i as int] == item@);
            assert(views.take(i + 1).drop_last() =~= views.take(i as int));
            assert(views.take(i + 1).last() == item@);
            assert(closed_markers(log.take(1)) =~= Seq::<TimeEvent>::empty());
            assert(pooled + Seq::<TimeEvent>::empty() =~= pooled);
        }
        let mut j: usize = 1;
        while j < events.len()
            invariant
                1 <= j <= events@.len(),
                events@ == log,
                well_formed_log(log),
                time_events@ == pooled + closed_markers(log.take(j as int)),
                sound_markers(time_events@),
            decreases events@.len() - j,
        {
            let ghost before = time_events@;
            proof {
                assert(log.take(j + 1).drop_last() =~= log.take(j as int));
                lemma_log_chronological(log, j - 1, j as int);
            }
            if events[j - 1].is_start() {
                time_events.push(TimeEvent::new(true, events[j - 1].timestamp()));
                time_events.push(TimeEvent::new(false, events[j].timestamp()));
                proof {
                    let pair = interval_markers(log[j - 1].timestamp, log[j as int].timestamp);
                    assert(time_events@ =~= before + pair);
                    lemma_sound_appended(before, log[j - 1].timestamp, log[j as int].timestamp);
                    assert(before + pair =~= pooled + (closed_markers(log.take(j as int)) + pair));
                }
            }
            j = j + 1;
        }
        proof {
            assert(log.take(log.len() as int) =~= log);
            lemma_log_chronological(log, 0, log.len() - 1);
        }
        let ghost closed = time_events@;
        if item.status() == Status::InProgress {
            let latest: i64 = item.last_timestamp();
            let until: i64 = if latest < now {
                now
            } else {
                latest
            };
            time_events.push(TimeEvent::new(true, latest));
            time_events.push(TimeEvent::new(false, until));
            proof {
                let pair = interval_markers(latest, until);
                assert(time_events@ =~= closed + pair);
                lemma_sound_appended(closed, latest, until);
                assert(closed + pair =~= pooled + (closed_markers(log) + open_markers(log, now)));
            }
        } else {
            proof {
                assert(closed =~= pooled + (closed_markers(log) + open_markers(log, now)));
            }
        }
        i = i + 1;
    }
    proof {
        assert(views.take(items@.len() as int) =~= views);
        lemma_total_within_span(time_events@, 0);
    }
    calculate_unique_total_time(time_events.as_mut_slice())
}

/// Calculate the total work time of the passed items as seen now.
pub fn calculate_total_work_time(items: &[&WorkItem]) -> (total: i64)
    requires
        forall|k: int| 0 <= k < items@.len() ==> (#[trigger] items@[k]).wf(),
    ensures
        total >= 0,
        exists|now: i64| total
            == unique_total_time(#[trigger] pooled_markers(views_of(items@), now)),
{
    calculate_total_work_time_at(items, get_current_timestamp())
}

} // verus!
