use crate::command::pause::{move_all_on, moved_on, none_later};
use crate::data_access::store::{lookup, Store};
use crate::work_item::event_type::EventType;
use crate::work_item::status::Status;
use crate::work_item::work_item::not_chronological_message;
use vstd::prelude::*;

verus! {

/// Finish all paused work items at the given instant, all of them or none:
/// where the latest event of one of them lies after the instant, the store
/// stays as it is.
pub fn finish_all_paused_work_items_at(store: &mut Store, now: i64) -> (result: Result<
    (),
    &'static str,
>)
    requires
        old(store).wf(),
    ensures
        final(store).wf(),
        final(store)@.len() == old(store)@.len(),
        result is Ok <==> none_later(old(store)@, Status::Paused, now),
        result is Ok ==> forall|id: i32|
            lookup(final(store)@, id) == moved_on(
                lookup(old(store)@, id),
                Status::Paused,
                EventType::Finished,
                now,
            ),
        result matches Err(message) ==> final(store)@ == old(store)@ && message@
            == not_chronological_message(),
{
    move_all_on(store, true, now)
}

/// Finish all paused work items, now.
pub fn finish_all_paused_work_items(store: &mut Store) -> (result: Result<(), &'static str>)
    requires
        old(store).wf(),
    ensures
        final(store).wf(),
        final(store)@.len() == old(store)@.len(),
        result is Ok ==> exists|now: i64|
            none_later(old(store)@, Status::Paused, now) && forall|id: i32|
                lookup(final(store)@, id) == #[trigger] moved_on(
                    lookup(old(store)@, id),
                    Status::Paused,
                    EventType::Finished,
                    now,
                ),
        result matches Err(message) ==> final(store)@ == old(store)@ && message@
            == not_chronological_message(),
{
    finish_all_paused_work_items_at(store, crate::work_item::clock::get_current_timestamp())
}

} // verus!
