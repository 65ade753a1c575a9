use crate::work_item::event::Event;
use crate::work_item::work_item::{WorkItem, WorkItemView};
use vstd::prelude::*;

verus! {

/// The views of the items.
pub open spec fn views_of(items: Seq<WorkItem>) -> Seq<WorkItemView> {
    Seq::new(items.len(), |k: int| items[k]@)
}

/// The item at position `k` is the latest: no item has a later latest event,
/// and every item before it has an earlier one.
pub open spec fn is_latest(items: Seq<WorkItemView>, k: int) -> bool {
    &&& 0 <= k < items.len()
    &&& forall|j: int|
        0 <= j < items.len() ==> (#[trigger] items[j]).last_timestamp() <= items[k].last_timestamp()
    &&& forall|j: int|
        0 <= j < k ==> (#[trigger] items[j]).last_timestamp() < items[k].last_timestamp()
}

/// The item at position `k` is the earliest: no item was started earlier,
/// and every item before it was started later.
pub open spec fn is_earliest(items: Seq<WorkItemView>, k: int) -> bool {
    &&& 0 <= k < items.len()
    &&& forall|j: int|
        0 <= j < items.len() ==> items[k].events[0].timestamp <= (
        #[trigger] items[j]).events[0].timestamp
    &&& forall|j: int|
        0 <= j < k ==> items[k].events[0].timestamp < (#[trigger] items[j]).events[0].timestamp
}

/// The closed active intervals of a log, each as its start and its end: for
/// each start-like event its timestamp and that of the next event.
pub open spec fn closed_intervals(events: Seq<Event>) -> Seq<(i64, i64)>
    decreases events.len(),
{
    if events.len() < 2 {
        Seq::empty()
    } else if events[events.len() - 2].event_type.is_start_like() {
        closed_intervals(events.drop_last()).push(
            (events[events.len() - 2].timestamp, events[events.len() - 1].timestamp),
        )
    } else {
        closed_intervals(events.drop_last())
    }
}

/// Find the latest work item among the passed work items: the one whose latest
/// event is the latest, and of several such the first.
pub fn find_latest_work_item(items: &[WorkItem]) -> (latest: &WorkItem)
    requires
        items@.len() > 0,
        forall|k: int| 0 <= k < items@.len() ==> (#[trigger] items@[k]).wf(),
    ensures
        exists|k: int| #[trigger] is_latest(views_of(items@), k) && *latest == items@[k],
{
    let ghost views = views_of(items@);
    let mut latest_ts: i64 = items[0].last_timestamp();
    let mut latest_index: usize = 0;
    let mut i: usize = 1;
    while i < items.len()
        invariant
            1 <= i <= items@.len(),
            latest_index < i,
            views == views_of(items@),
            forall|k: int| 0 <= k < items@.len() ==> (#[trigger] items@[k]).wf(),
            latest_ts == views[latest_index as int].last_timestamp(),
            forall|j: int| 0 <= j < i ==> (#[trigger] views[j]).last_timestamp() <= latest_ts,
            forall|j: int| 0 <= j < latest_index ==> (#[trigger] views[j]).last_timestamp()
                < latest_ts,
        decreases items@.len() - i,
    {
        let candidate: i64 = items[i].last_timestamp();
        if candidate > latest_ts {
            latest_ts = candidate;
            latest_index = i;
        }
        i = i + 1;
    }
    proof {
        assert(is_latest(views, latest_index as int));
    }
    &items[latest_index]
}

/// Find the earliest work item among the passed work items: the one that was
/// started first, and of several such the first.
pub fn find_earliest_work_item(items: &[WorkItem]) -> (earliest: &WorkItem)
    requires
        items@.len() > 0,
        forall|k: int| 0 <= k < items@.len() ==> (#[trigger] items@[k]).wf(),
    ensures
        exists|k: int| #[trigger] is_earliest(views_of(items@), k) && *earliest == items@[k],
{
    let ghost views = views_of(items@);
    let mut earliest_ts: i64 = items[0].created_timestamp();
    let mut earliest_index: usize = 0;
    let mut i: usize = 1;
    while i < items.len()
        invariant
            1 <= i <= items@.len(),
            earliest_index < i,
            views == views_of(items@),
            forall|k: int| 0 <= k < items@.len() ==> (#[trigger] items@[k]).wf(),
            earliest_ts == views[earliest_index as int].events[0].timestamp,
            forall|j: int| 0 <= j < i ==> earliest_ts <= (#[trigger] views[j]).events[0].timestamp,
            forall|j: int|
                0 <= j < earliest_index ==> earliest_ts < (#[trigger] views[j]).events[0].timestamp,
        decreases items@.len() - i,
    {
        let candidate: i64 = items[i].created_timestamp();
        if candidate < earliest_ts {
            earliest_ts = candidate;
            earliest_index = i;
        }
        i = i + 1;
    }
    proof {
        assert(is_earliest(views, earliest_index as int));
    }
    &items[earliest_index]
}

/// The stretches of time during which the item was worked on and which are
/// closed, each as its start and its end, in the order of the log.
pub fn event_timeline(item: &WorkItem) -> (timeline: Vec<(i64, i64)>)
    requires
        item.wf(),
    ensures
        timeline@ == closed_intervals(item@.events),
{
    let events: &[Event] = item.events();
    let mut result: Vec<(i64, i64)> = Vec::new();
    let mut i: usize = 1;
    proof {
        assert(closed_intervals(events@.take(1)) =~= Seq::<(i64, i64)>::empty());
    }
    while i < events.len()
        invariant
            1 <= i <= events@.len(),
            result@ == closed_intervals(events@.take(i as int)),
        decreases events@.len() - i,
    {
        proof {
            assert(events@.take(i + 1).drop_last() =~= events@.take(i as int));
        }
        if events[i - 1].is_start() {
            result.push((events[i - 1].timestamp(), events[i].timestamp()));
        }
        i = i + 1;
    }
    proof {
        assert(events@.take(events@.len() as int) =~= events@);
    }
    result
}

} // verus!
