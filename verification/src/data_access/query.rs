//! The operations of the store as its users call them.

use crate::data_access::data_access::DataAccess;
use crate::data_access::error::StoreError;
use crate::data_access::store::{
    all_identified, all_stored, batch_views, has_status, item_views, lookup, next_id, other_than,
    started_within, store_wf, updated,
};
use crate::work_item::status::Status;
use crate::work_item::work_item::{WorkItem, WorkItemView};
use vstd::prelude::*;

verus! {

/// Log a work item.
/// Will return the ID of the new item.
pub fn log_item<D: DataAccess>(store: &mut D, item: WorkItem) -> (result: Result<i32, StoreError>)
    requires
        store_wf(old(store).stored()),
        item.wf(),
    ensures
        store_wf(final(store).stored()),
        result is Ok <==> next_id(old(store).stored()) <= i32::MAX,
        result matches Ok(id) ==> {
            &&& id == next_id(old(store).stored())
            &&& lookup(old(store).stored(), id) is None
            &&& final(store).stored() == old(store).stored().push(
                WorkItemView { id: Some(id), ..item@ },
            )
        },
        result matches Err(error) ==> error == StoreError::NoFreeId && final(store).stored()
            == old(store).stored(),
{
    store.log_item(item)
}

/// Update a bunch of work items, all of them or none.
pub fn update_items<D: DataAccess>(store: &mut D, items: Vec<&WorkItem>) -> (result: Result<
    (),
    StoreError,
>)
    requires
        store_wf(old(store).stored()),
        forall|k: int| 0 <= k < items@.len() ==> (#[trigger] items@[k]).wf(),
    ensures
        store_wf(final(store).stored()),
        result is Ok <==> all_identified(batch_views(items@)) && all_stored(
            old(store).stored(),
            batch_views(items@),
        ),
        result is Ok ==> final(store).stored() == updated(old(store).stored(), batch_views(items@)),
        result matches Err(error) ==> final(store).stored() == old(store).stored() && error
            == if !all_identified(batch_views(items@)) {
            StoreError::MissingId
        } else {
            StoreError::UnknownItem
        },
{
    store.update_items(items)
}

/// List all work items, in the order of their ids.
pub fn list_items<D: DataAccess>(store: &D) -> (items: Vec<WorkItem>)
    ensures
        item_views(items@) == store.stored(),
{
    store.list_items()
}

/// Find the work items that were started at or after `from_timestamp` and
/// before `to_timestamp`, in the order of their ids.
pub fn find_items_by_timerange<D: DataAccess>(
    store: &D,
    from_timestamp: i64,
    to_timestamp: i64,
) -> (found: Vec<WorkItem>)
    requires
        store_wf(store.stored()),
    ensures
        item_views(found@) == store.stored().filter(started_within(from_timestamp, to_timestamp)),
{
    store.filter_items(from_timestamp, to_timestamp)
}

/// Find a work item by its ID.
pub fn find_item_by_id<D: DataAccess>(store: &D, id: i32) -> (found: Option<WorkItem>)
    requires
        store_wf(store.stored()),
    ensures
        match found {
            Some(item) => lookup(store.stored(), id) == Some(item@) && item.wf(),
            None => lookup(store.stored(), id) is None,
        },
{
    store.find_item_by_id(id)
}

/// Find the work items with the given status, in the order of their ids.
pub fn find_items_by_status<D: DataAccess>(store: &D, status: Status) -> (found: Vec<WorkItem>)
    ensures
        item_views(found@) == store.stored().filter(has_status(status)),
{
    store.find_items_by_status(status)
}

/// Delete the work item with the given ID.
/// Returns the deleted work item or None if there is no item with the given ID.
pub fn delete_item<D: DataAccess>(store: &mut D, id: i32) -> (deleted: Option<WorkItem>)
    requires
        store_wf(old(store).stored()),
    ensures
        store_wf(final(store).stored()),
        match deleted {
            Some(item) => lookup(old(store).stored(), id) == Some(item@) && item.wf(),
            None => lookup(old(store).stored(), id) is None,
        },
        final(store).stored() == old(store).stored().filter(other_than(id)),
        lookup(final(store).stored(), id) is None,
{
    store.delete_item(id)
}

/// Remove all work items.
pub fn clear<D: DataAccess>(store: &mut D)
    ensures
        store_wf(final(store).stored()),
        final(store).stored() == Seq::<WorkItemView>::empty(),
        forall|id: i32| lookup(final(store).stored(), id) is None,
{
    store.clear()
}

} // verus!
