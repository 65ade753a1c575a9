//! The interface of a store of work items.

use crate::data_access::error::StoreError;
use crate::data_access::store::{
    all_identified, all_stored, batch_views, has_status, item_views, lookup, next_id, other_than,
    started_within, store_wf, updated,
};
use crate::work_item::status::Status;
use crate::work_item::work_item::{WorkItem, WorkItemView};
use vstd::prelude::*;

verus! {

/// Common data access interface.
pub trait DataAccess {
    /// The work items that are stored, in the order of their ids.
    spec fn stored(&self) -> Seq<WorkItemView>;

    /// Log a work item.
    /// Will return the ID of the new item, which is one more than the greatest
    /// id in the store.
    fn log_item(&mut self, item: WorkItem) -> (result: Result<i32, StoreError>)
        requires
            store_wf(old(self).stored()),
            item.wf(),
        ensures
            store_wf(final(self).stored()),
            result is Ok <==> next_id(old(self).stored()) <= i32::MAX,
            result matches Ok(id) ==> {
                &&& id == next_id(old(self).stored())
                &&& lookup(old(self).stored(), id) is None
                &&& final(self).stored() == old(self).stored().push(
                    WorkItemView { id: Some(id), ..item@ },
                )
            },
            result matches Err(error) ==> error == StoreError::NoFreeId && final(self).stored()
                == old(self).stored(),
    ;

    /// List all available work items, in the order of their ids.
    fn list_items(&self) -> (items: Vec<WorkItem>)
        ensures
            item_views(items@) == self.stored(),
    ;

    /// Find a work item by its ID.
    fn find_item_by_id(&self, id: i32) -> (found: Option<WorkItem>)
        requires
            store_wf(self.stored()),
        ensures
            match found {
                Some(item) => lookup(self.stored(), id) == Some(item@) && item.wf(),
                None => lookup(self.stored(), id) is None,
            },
    ;

    /// Update a bunch of work items: each takes the place of the stored item
    /// with its id. Either all of them are updated or none is: where one of
    /// them has no id, or is not in the store, the store stays as it is.
    fn update_items(&mut self, items: Vec<&WorkItem>) -> (result: Result<(), StoreError>)
        requires
            store_wf(old(self).stored()),
            forall|k: int| 0 <= k < items@.len() ==> (#[trigger] items@[k]).wf(),
        ensures
            store_wf(final(self).stored()),
            result is Ok <==> all_identified(batch_views(items@)) && all_stored(
                old(self).stored(),
                batch_views(items@),
            ),
            result is Ok ==> final(self).stored() == updated(
                old(self).stored(),
                batch_views(items@),
            ),
            result matches Err(error) ==> final(self).stored() == old(self).stored() && error
                == if !all_identified(batch_views(items@)) {
                StoreError::MissingId
            } else {
                StoreError::UnknownItem
            },
    ;

    /// Find work items by the given status, in the order of their ids. The
    /// status of an item is the one that its latest event gives.
    fn find_items_by_status(&self, status: Status) -> (found: Vec<WorkItem>)
        ensures
            item_views(found@) == self.stored().filter(has_status(status)),
    ;

    /// List available work items in the given time range, in the order of
    /// their ids: those that were started at or after `from_timestamp` and
    /// before `to_timestamp`.
    fn filter_items(&self, from_timestamp: i64, to_timestamp: i64) -> (found: Vec<WorkItem>)
        requires
            store_wf(self.stored()),
        ensures
            item_views(found@) == self.stored().filter(
                started_within(from_timestamp, to_timestamp),
            ),
    ;

    /// Delete a work item with the given ID.
    /// Returns the deleted work item or None if there is no item with the given ID.
    fn delete_item(&mut self, id: i32) -> (deleted: Option<WorkItem>)
        requires
            store_wf(old(self).stored()),
        ensures
            store_wf(final(self).stored()),
            match deleted {
                Some(item) => lookup(old(self).stored(), id) == Some(item@) && item.wf(),
                None => lookup(old(self).stored(), id) is None,
            },
            final(self).stored() == old(self).stored().filter(other_than(id)),
            lookup(final(self).stored(), id) is None,
    ;

    /// Remove all work items.
    fn clear(&mut self)
        ensures
            store_wf(final(self).stored()),
            final(self).stored() == Seq::<WorkItemView>::empty(),
            forall|id: i32| lookup(final(self).stored(), id) is None,
    ;
}

} // verus!
