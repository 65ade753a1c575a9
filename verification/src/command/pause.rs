use crate::data_access::data_access::DataAccess;
use crate::data_access::store::{
    has_status, lemma_lookup, lemma_updated, lookup, store_wf, updated, Store,
};
use crate::work_item::event_type::EventType;
use crate::work_item::status::Status;
use crate::work_item::work_item::{not_chronological_message, WorkItem, WorkItemView};
use vstd::prelude::*;

verus! {

/// What is stored under an id after all items of the status `from` have
/// undergone one more event: such an item has the event appended, any other
/// item is as it was.
pub open spec fn moved_on(
    found: Option<WorkItemView>,
    from: Status,
    event_type: EventType,
    at: i64,
) -> Option<WorkItemView> {
    match found {
        Some(item) => if item.status == from {
            Some(item.appended(event_type, at))
        } else {
            Some(item)
        },
        None => None,
    }
}

/// No stored item of the status `from` has its latest event after the instant `at`.
pub open spec fn none_later(items: Seq<WorkItemView>, from: Status, at: i64) -> bool {
    forall|i: int|
        0 <= i < items.len() && (#[trigger] items[i]).status == from ==> items[i].last_timestamp()
            <= at
}

/// The items of a batch, each with one more event.
pub open spec fn each_appended(batch: Seq<WorkItemView>, event_type: EventType, at: i64) -> Seq<
    WorkItemView,
> {
    Seq::new(batch.len(), |k: int| batch[k].appended(event_type, at))
}

/// Updating the store with its items of one status, each with one more event,
/// moves exactly these items on.
proof fn lemma_moved_on(items: Seq<WorkItemView>, from: Status, event_type: EventType, at: i64)
    requires
        store_wf(items),
        forall|i: int|
            0 <= i < items.len() && (#[trigger] items[i]).status == from ==> items[i].appended(
                event_type,
                at,
            ).wf(),
    ensures
        ({
            let batch = each_appended(items.filter(has_status(from)), event_type, at);
            &&& store_wf(updated(items, batch))
            &&& updated(items, batch).len() == items.len()
            &&& forall|id: i32|
                lookup(updated(items, batch), id) == moved_on(
                    lookup(items, id),
                    from,
                    event_type,
                    at,
                )
        }),
{
    let chosen = items.filter(has_status(from));
    let batch = each_appended(chosen, event_type, at);
    assert forall|k: int| 0 <= k < chosen.len() implies (#[trigger] chosen[k]).status == from
        && items.contains(chosen[k]) by {
        items.lemma_filter_pred(has_status(from), k);
        assert(chosen.contains(chosen[k]));
        items.lemma_filter_contains_rev(has_status(from), chosen[k]);
    }
    assert forall|k: int| 0 <= k < batch.len() implies (#[trigger] batch[k]).wf()
        && batch[k].id is Some by {
        assert(items.contains(chosen[k]));
        let i = choose|i: int| 0 <= i < items.len() && items[i] == chosen[k];
        assert(items[i].wf());
    }
    lemma_updated(items, batch);
    assert forall|id: i32|
        lookup(updated(items, batch), id) == moved_on(lookup(items, id), from, event_type, at) by {
        lemma_lookup(items, id);
        lemma_lookup(batch, id);
        if lookup(batch, id) is Some {
            let update = lookup(batch, id)->0;
            let k = choose|k: int| 0 <= k < batch.len() && batch[k] == update;
            assert(items.contains(chosen[k]));
            let i = choose|i: int| 0 <= i < items.len() && items[i] == chosen[k];
            assert(items[i].id == Some(id));
        } else if lookup(items, id) is Some && lookup(items, id)->0.status == from {
            let found = lookup(items, id)->0;
            let i = choose|i: int| 0 <= i < items.len() && items[i] == found;
            items.lemma_filter_contains(has_status(from), i);
            let k = choose|k: int| 0 <= k < chosen.len() && chosen[k] == found;
            assert(batch[k].id == Some(id));
        }
    }
}

/// Lets every stored item of one status undergo one more event at the given
/// instant: the items in progress are paused, or else the paused items are
/// finished. All of them move on or none does.
pub(crate) fn move_all_on(store: &mut Store, finish: bool, at: i64) -> (result: Result<
    (),
    &'static str,
>)
    requires
        old(store).wf(),
    ensures
        final(store).wf(),
        final(store)@.len() == old(store)@.len(),
        ({
            let from = if finish {
                Status::Paused
            } else {
                Status::InProgress
            };
            let event_type = if finish {
                EventType::Finished
            } else {
                EventType::Paused
            };
            &&& result is Ok <==> none_later(old(store)@, from, at)
            &&& result is Ok ==> forall|id: i32|
                lookup(final(store)@, id) == moved_on(lookup(old(store)@, id), from, event_type, at)
            &&& result matches Err(message) ==> final(store)@ == old(store)@ && message@
                == not_chronological_message()
        }),
{
    let from: Status = if finish {
        Status::Paused
    } else {
        Status::InProgress
    };
    let ghost event_type = if finish {
        EventType::Finished
    } else {
        EventType::Paused
    };
    let ghost before = store@;
    let ghost chosen = before.filter(has_status(from));
    let mut found: Vec<WorkItem> = store.find_items_by_status(from);
    proof {
        assert forall|k: int| 0 <= k < chosen.len() implies (#[trigger] chosen[k]).status == from
            && before.contains(chosen[k]) && chosen[k].wf() && chosen[k].id is Some by {
            before.lemma_filter_pred(has_status(from), k);
            assert(chosen.contains(chosen[k]));
            before.lemma_filter_contains_rev(has_status(from), chosen[k]);
            let i = choose|i: int| 0 <= i < before.len() && before[i] == chosen[k];
            assert(before[i].wf());
        }
    }
    let mut k: usize = 0;
    while k < found.len()
        invariant
            k <= found@.len(),
            found@.len() == chosen.len(),
            store.wf(),
            store@ == before,
            chosen == before.filter(has_status(from)),
            from == if finish {
                Status::Paused
            } else {
                Status::InProgress
            },
            event_type == if finish {
                EventType::Finished
            } else {
                EventType::Paused
            },
            forall|j: int|
                0 <= j < chosen.len() ==> (#[trigger] chosen[j]).status == from && before.contains(
                    chosen[j],
                ) && chosen[j].wf() && chosen[j].id is Some,
            forall|j: int|
                0 <= j < k ==> (#[trigger] found@[j])@ == chosen[j].appended(event_type, at)
                    && found@[j].wf() && chosen[j].last_timestamp() <= at,
            forall|j: int| k <= j < found@.len() ==> (#[trigger] found@[j])@ == chosen[j],
        decreases found@.len() - k,
    {
        let ghost snapshot = found@;
        let mut item: WorkItem = found[k].duplicate();
        proof {
            assert(item@ == chosen[k as int]);
            assert(chosen[k as int].wf());
        }
        let outcome: Result<(), &'static str> = if finish {
            item.finish_working_at(at)
        } else {
            item.pause_working_at(at)
        };
        match outcome {
            Ok(_) => {},
            Err(message) => {
                proof {
                    let i = choose|i: int| 0 <= i < before.len() && before[i] == chosen[k as int];
                    assert(before[i].status == from && !(before[i].last_timestamp() <= at));
                }
                return Err(message);
            },
        }
        found.set(k, item);
        k = k + 1;
    }
    proof {
        assert forall|i: int|
            0 <= i < before.len() && (#[trigger] before[i]).status
                == from implies before[i].last_timestamp() <= at && before[i].appended(
            event_type,
            at,
        ).wf() by {
            before.lemma_filter_contains(has_status(from), i);
            let j = choose|j: int| 0 <= j < chosen.len() && chosen[j] == before[i];
            assert(found@[j]@ == chosen[j].appended(event_type, at));
        }
        lemma_moved_on(before, from, event_type, at);
    }
    let mut to_update: Vec<&WorkItem> = Vec::new();
    let mut k: usize = 0;
    while k < found.len()
        invariant
            k <= found@.len(),
            to_update@.len() == k,
            forall|j: int| 0 <= j < k ==> (#[trigger] to_update@[j])@ == found@[j]@,
        decreases found@.len() - k,
    {
        to_update.push(&found[k]);
        k = k + 1;
    }
    proof {
        let batch = crate::data_access::store::batch_views(to_update@);
        assert(batch =~= each_appended(chosen, event_type, at));
        assert forall|j: int| 0 <= j < to_update@.len() implies (#[trigger] to_update@[j]).wf() by {
            assert(found@[j].wf());
        }
        assert forall|j: int| 0 <= j < batch.len() implies (#[trigger] batch[j]).id is Some by {
            assert(chosen[j].id is Some);
        }
        assert forall|j: int| 0 <= j < batch.len() && (#[trigger] batch[j]).id is Some
            implies lookup(
            before,
            batch[j].id->0,
        ) is Some by {
            let i = choose|i: int| 0 <= i < before.len() && before[i] == chosen[j];
            lemma_lookup(before, batch[j].id->0);
        }
    }
    let updated: Result<(), crate::data_access::error::StoreError> = store.update_items(to_update);
    assert(updated is Ok);
    Ok(())
}

/// Pause all work items in progress at the given instant, all of them or none:
/// where the latest event of one of them lies after the instant, the store
/// stays as it is.
pub fn pause_all_work_items_in_progress_at(store: &mut Store, now: i64) -> (result: Result<
    (),
    &'static str,
>)
    requires
        old(store).wf(),
    ensures
        final(store).wf(),
        final(store)@.len() == old(store)@.len(),
        result is Ok <==> none_later(old(store)@, Status::InProgress, now),
        result is Ok ==> forall|id: i32|
            lookup(final(store)@, id) == moved_on(
                lookup(old(store)@, id),
                Status::InProgress,
                EventType::Paused,
                now,
            ),
        result matches Err(message) ==> final(store)@ == old(store)@ && message@
            == not_chronological_message(),
{
    move_all_on(store, false, now)
}

/// Pause all work items in progress, now.
pub fn pause_all_work_items_in_progress(store: &mut Store) -> (result: Result<(), &'static str>)
    requires
        old(store).wf(),
    ensures
        final(store).wf(),
        final(store)@.len() == old(store)@.len(),
        result is Ok ==> exists|now: i64|
            none_later(old(store)@, Status::InProgress, now) && forall|id: i32|
                lookup(final(store)@, id) == #[trigger] moved_on(
                    lookup(old(store)@, id),
                    Status::InProgress,
                    EventType::Paused,
                    now,
                ),
        result matches Err(message) ==> final(store)@ == old(store)@ && message@
            == not_chronological_message(),
{
    pause_all_work_items_in_progress_at(store, crate::work_item::clock::get_current_timestamp())
}

} // verus!
