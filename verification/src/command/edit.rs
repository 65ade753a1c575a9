use crate::data_access::error::StoreError;
use crate::data_access::data_access::DataAccess;
use crate::data_access::store::{lookup, replaced, Store};
use crate::work_item::tags::tag_texts;
use crate::work_item::work_item::WorkItem;
use vstd::prelude::*;

verus! {

/// Update the passed work item with the given optional changes and store it.
/// The item is changed in any case; the store takes it only where it holds
/// an item of that id.
pub fn update_work_item(
    store: &mut Store,
    item: &mut WorkItem,
    description: Option<String>,
    tags: Option<Vec<String>>,
) -> (result: Result<(), StoreError>)
    requires
        old(store).wf(),
        old(item).wf(),
    ensures
        final(store).wf(),
        final(item).wf(),
        final(item)@.id == old(item)@.id,
        final(item)@.events == old(item)@.events,
        final(item)@.status == old(item)@.status,
        final(item)@.description == match description {
            Some(text) => text@,
            None => old(item)@.description,
        },
        final(item)@.tag_set() == match tags {
            Some(names) => tag_texts(names@).to_set(),
            None => old(item)@.tag_set(),
        },
        tags is None ==> final(item)@.tags == old(item)@.tags,
        result is Ok <==> old(item)@.id is Some && lookup(old(store)@, old(item)@.id->0) is Some,
        result is Ok ==> final(store)@ == replaced(old(store)@, final(item)@),
        result matches Err(error) ==> final(store)@ == old(store)@ && error == if old(item)@.id
            is None {
            StoreError::MissingId
        } else {
            StoreError::UnknownItem
        },
{
    match description {
        Some(text) => {
            item.set_description(text);
        },
        None => {},
    }

    match tags {
        Some(names) => {
            item.set_tags(names);
        },
        None => {},
    }

    // Persist changes
    let mut batch: Vec<&WorkItem> = Vec::new();
    batch.push(&*item);
    proof {
        let views = crate::data_access::store::batch_views(batch@);
        assert(views[0] == item@);
        assert(views.len() == 1);
        assert(views.last() == item@);
        assert(views.drop_last().len() == 0);
        assert(crate::data_access::store::updated(store@, views.drop_last()) == store@);
        assert(crate::data_access::store::updated(store@, views) == replaced(store@, item@));
        if item@.id is None {
            assert(!crate::data_access::store::all_identified(views));
        } else {
            if lookup(store@, item@.id->0) is None {
                assert(!crate::data_access::store::all_stored(store@, views));
            }
        }
    }
    store.update_items(batch)
}

} // verus!
