//! What holds of the store across its operations.

use crate::data_access::reconstruct::{
    all_event_rows, all_header_rows, all_tag_rows, lemma_rows_round_trip, logs_restorable, restored,
};
use crate::data_access::rows::{events_readable, statuses_readable};
use crate::data_access::store::{
    has_status, ids_ascending, lemma_lookup, lemma_replaced, lookup, next_id, replaced, store_wf,
};
use crate::work_item::event_type::EventType;
use crate::work_item::log::lemma_log_append;
use crate::work_item::status::Status;
use crate::work_item::work_item::WorkItemView;
use vstd::prelude::*;

verus! {

/// An item that is logged is found again under the id that it was given: with
/// the description, the tags and the events that it was logged with, and
/// under an id that no item had before.
pub proof fn lemma_logged_item_is_found(store: Seq<WorkItemView>, item: WorkItemView)
    requires
        store_wf(store),
        item.wf(),
        next_id(store) <= i32::MAX,
    ensures
        ({
            let id = next_id(store) as i32;
            let stored = WorkItemView { id: Some(id), ..item };
            &&& lookup(store, id) is None
            &&& store_wf(store.push(stored))
            &&& lookup(store.push(stored), id) == Some(stored)
            &&& stored.description == item.description
            &&& stored.tag_set() == item.tag_set()
            &&& stored.events == item.events
        }),
{
    let id = next_id(store) as i32;
    let stored = WorkItemView { id: Some(id), ..item };
    let after = store.push(stored);
    lemma_lookup(store, id);
    if lookup(store, id) is Some {
        let found = lookup(store, id)->0;
        let k = choose|k: int| 0 <= k < store.len() && store[k] == found;
        if k < store.len() - 1 {
            assert(store[k].id->0 < store[store.len() - 1].id->0);
        }
    }
    assert(after.drop_last() =~= store);
    assert forall|i: int| 0 <= i < after.len() implies (#[trigger] after[i]).wf()
        && after[i].id is Some by {
        if i < store.len() {
            assert(store[i].wf());
        }
    }
    assert forall|i: int, j: int| 0 <= i < j < after.len() implies (#[trigger] after[i]).id->0 < (
    #[trigger] after[j]).id->0 by {
        if j < store.len() {
            assert(store[i].id->0 < store[j].id->0);
        } else if i < store.len() - 1 {
            assert(store[i].id->0 < store[store.len() - 1].id->0);
        }
    }
}

/// The rows under which a store is kept hold that store and no other: they
/// are readable, they come in the order of the ids, and every store that
/// they restore is the store that wrote them.
pub proof fn lemma_store_round_trip(store: Seq<WorkItemView>, reloaded: Seq<WorkItemView>)
    requires
        store_wf(store),
        reloaded.len() == store.len(),
        forall|i: int|
            0 <= i < reloaded.len() ==> restored(
                #[trigger] reloaded[i],
                all_header_rows(store)[i],
                all_tag_rows(store),
                all_event_rows(store),
            ),
    ensures
        statuses_readable(all_header_rows(store)),
        events_readable(all_event_rows(store)),
        logs_restorable(all_header_rows(store), all_event_rows(store)),
        ids_ascending(all_header_rows(store)),
        reloaded == store,
{
    let headers = all_header_rows(store);
    assert forall|k: int, m: int| 0 <= k < m < store.len() implies (#[trigger] store[k]).id != (
    #[trigger] store[m]).id by {
        assert(store[k].id->0 < store[m].id->0);
    }
    lemma_rows_round_trip(store);
    assert forall|i: int, j: int| 0 <= i < j < headers.len() implies (#[trigger] headers[i]).id < (
    #[trigger] headers[j]).id by {
        assert(store[i].id->0 < store[j].id->0);
    }
    assert forall|i: int| 0 <= i < store.len() implies reloaded[i] == store[i] by {
        assert(restored(
            reloaded[i],
            all_header_rows(store)[i],
            all_tag_rows(store),
            all_event_rows(store),
        ));
    }
    assert(reloaded =~= store);
}

/// An item is in progress exactly if its latest event is `Started` or `Continued`.
pub proof fn lemma_in_progress_iff_latest_starts(item: WorkItemView)
    requires
        item.wf(),
    ensures
        item.status == Status::InProgress <==> item.events.last().event_type == EventType::Started
            || item.events.last().event_type == EventType::Continued,
{
}

/// Asking the store for a status yields exactly the stored items of that
/// status: every item that is found has it, and every stored item that has
/// it is found.
pub proof fn lemma_found_by_status(store: Seq<WorkItemView>, status: Status)
    ensures
        forall|i: int|
            0 <= i < store.filter(has_status(status)).len() ==> (#[trigger] store.filter(
                has_status(status),
            )[i]).status == status && store.contains(store.filter(has_status(status))[i]),
        forall|i: int|
            0 <= i < store.len() && (#[trigger] store[i]).status == status ==> store.filter(
                has_status(status),
            ).contains(store[i]),
{
    let found = store.filter(has_status(status));
    assert forall|i: int| 0 <= i < found.len() implies (#[trigger] found[i]).status == status
        && store.contains(found[i]) by {
        store.lemma_filter_pred(has_status(status), i);
        assert(found.contains(found[i]));
        store.lemma_filter_contains_rev(has_status(status), found[i]);
    }
    assert forall|i: int| 0 <= i < store.len() && (#[trigger] store[i]).status == status
        implies found.contains(
        store[i],
    ) by {
        store.lemma_filter_contains(has_status(status), i);
    }
}

/// An item in progress that is finished and updated in the store is no
/// longer found among the items in progress, and is found among those done.
pub proof fn lemma_finished_item_changes_status(store: Seq<WorkItemView>, p: int, finished_at: i64)
    requires
        store_wf(store),
        0 <= p < store.len(),
        store[p].status == Status::InProgress,
        store[p].last_timestamp() <= finished_at,
    ensures
        ({
            let done = store[p].appended(EventType::Finished, finished_at);
            let after = replaced(store, done);
            &&& store.filter(has_status(Status::InProgress)).contains(store[p])
            &&& done.wf()
            &&& store_wf(after)
            &&& lookup(after, store[p].id->0) == Some(done)
            &&& after.filter(has_status(Status::Done)).contains(done)
            &&& forall|i: int|
                0 <= i < after.filter(has_status(Status::InProgress)).len() ==> (
                #[trigger] after.filter(has_status(Status::InProgress))[i]).id != store[p].id
        }),
{
    let item = store[p];
    let id = item.id->0;
    let done = item.appended(EventType::Finished, finished_at);
    let after = replaced(store, done);
    assert(item.wf());
    lemma_log_append(item.events, done.events.last());
    assert(done.events.drop_last() =~= item.events);
    lemma_lookup(store, id);
    lemma_replaced(store, done);
    store.lemma_filter_contains(has_status(Status::InProgress), p);
    assert(after[p] == done);
    after.lemma_filter_contains(has_status(Status::Done), p);
    let progressing = after.filter(has_status(Status::InProgress));
    assert forall|i: int| 0 <= i < progressing.len() implies (#[trigger] progressing[i]).id
        != item.id by {
        after.lemma_filter_pred(has_status(Status::InProgress), i);
        assert(progressing.contains(progressing[i]));
        after.lemma_filter_contains_rev(has_status(Status::InProgress), progressing[i]);
        let k = choose|k: int| 0 <= k < after.len() && after[k] == progressing[i];
        if k != p {
            if k < p {
                assert(store[k].id->0 < store[p].id->0);
            } else {
                assert(store[p].id->0 < store[k].id->0);
            }
        }
    }
}

/// A store that was cleared lists nothing and finds nothing, whatever id is
/// asked for.
pub proof fn lemma_cleared_store_is_empty(id: i32)
    ensures
        lookup(Seq::<WorkItemView>::empty(), id) is None,
        Seq::<WorkItemView>::empty().len() == 0,
        store_wf(Seq::<WorkItemView>::empty()),
{
}

} // verus!
