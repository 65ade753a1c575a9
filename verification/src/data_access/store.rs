//! The store of work items: every item under its id, each with its
//! description, its tags and its events as one unit.

use crate::data_access::data_access::DataAccess;
use crate::data_access::error::StoreError;
use crate::data_access::reconstruct::{
    all_event_rows, all_header_rows, all_tag_rows, create_work_items, event_rows_of, header_row_of,
    logs_restorable, restored, tag_rows_of,
};
use crate::data_access::rows::{
    event_rows, events_readable, log_rows, statuses_readable, tag_rows, EventRow, EventRowView,
    LogRow, LogRowView, TagRow, TagRowView,
};
use crate::work_item::event::Event;
use crate::work_item::status::Status;
use crate::work_item::work_item::{WorkItem, WorkItemView};
use vstd::prelude::*;

verus! {

/// The work items that are stored, in the order of their ids.
#[derive(Debug)]
pub struct Store {
    items: Vec<WorkItem>,
}

/// The items as mathematical values.
pub open spec fn item_views(items: Seq<WorkItem>) -> Seq<WorkItemView> {
    Seq::new(items.len(), |i: int| items[i]@)
}

/// Every stored item is well formed and has an id, and the ids ascend strictly.
pub open spec fn store_wf(items: Seq<WorkItemView>) -> bool {
    &&& forall|i: int| 0 <= i < items.len() ==> (#[trigger] items[i]).wf() && items[i].id is Some
    &&& forall|i: int, j: int|
        0 <= i < j < items.len() ==> (#[trigger] items[i]).id->0 < (#[trigger] items[j]).id->0
}

/// The ids of the header rows ascend strictly.
pub open spec fn ids_ascending(logs: Seq<LogRowView>) -> bool {
    forall|i: int, j: int|
        0 <= i < j < logs.len() ==> (#[trigger] logs[i]).id < (#[trigger] logs[j]).id
}

/// The stored item with the given id, if there is one.
pub open spec fn lookup(items: Seq<WorkItemView>, id: i32) -> Option<WorkItemView>
    decreases items.len(),
{
    if items.len() == 0 {
        None
    } else if items.last().id == Some(id) {
        Some(items.last())
    } else {
        lookup(items.drop_last(), id)
    }
}

/// The id that the next new item gets: one more than the greatest id in the
/// store, and 1 in an empty store.
pub open spec fn next_id(items: Seq<WorkItemView>) -> int {
    if items.len() == 0 {
        1
    } else {
        items.last().id->0 + 1
    }
}

/// The predicate "has the given status".
pub open spec fn has_status(status: Status) -> spec_fn(WorkItemView) -> bool {
    |item: WorkItemView| item.status == status
}

/// The predicate "was started at or after `from` and before `to`".
pub open spec fn started_within(from: i64, to: i64) -> spec_fn(WorkItemView) -> bool {
    |item: WorkItemView| from <= item.events[0].timestamp < to
}

/// The predicate "has another id than the given one".
pub open spec fn other_than(id: i32) -> spec_fn(WorkItemView) -> bool {
    |item: WorkItemView| item.id != Some(id)
}

/// What `lookup` finds is an item of the store with the id asked for, and in
/// a well-formed store it finds every such item.
pub proof fn lemma_lookup(items: Seq<WorkItemView>, id: i32)
    ensures
        lookup(items, id) matches Some(item) ==> item.id == Some(id) && items.contains(item),
        lookup(items, id) is None ==> forall|i: int|
            0 <= i < items.len() ==> (#[trigger] items[i]).id != Some(id),
        store_wf(items) ==> forall|i: int|
            0 <= i < items.len() && (#[trigger] items[i]).id == Some(id) ==> lookup(items, id)
                == Some(items[i]),
    decreases items.len(),
{
    if items.len() > 0 {
        let front = items.drop_last();
        lemma_lookup(front, id);
        if items.last().id == Some(id) {
            assert(items[items.len() - 1] == items.last());
            if store_wf(items) {
                assert forall|i: int| 0 <= i < items.len() && (#[trigger] items[i]).id == Some(
                    id,
                ) implies lookup(items, id) == Some(items[i]) by {
                    if i < items.len() - 1 {
                        assert(items[i].id->0 < items[items.len() - 1].id->0);
                    }
                }
            }
        } else {
            if lookup(front, id) is Some {
                let found = lookup(front, id)->0;
                let k = choose|k: int| 0 <= k < front.len() && front[k] == found;
                assert(items[k] == found);
            }
            assert forall|i: int| 0 <= i < items.len() && lookup(items, id) is None implies (
            #[trigger] items[i]).id != Some(id) by {
                if i < front.len() {
                    assert(front[i] == items[i]);
                }
            }
            if store_wf(items) {
                assert(store_wf(front)) by {
                    assert forall|i: int| 0 <= i < front.len() implies (#[trigger] front[i]).wf()
                        && front[i].id is Some by {
                        assert(items[i].wf());
                    }
                    assert forall|i: int, j: int| 0 <= i < j < front.len() implies (
                    #[trigger] front[i]).id->0 < (#[trigger] front[j]).id->0 by {
                        assert(items[i].id->0 < items[j].id->0);
                    }
                }
                assert forall|i: int| 0 <= i < items.len() && (#[trigger] items[i]).id == Some(
                    id,
                ) implies lookup(items, id) == Some(items[i]) by {
                    assert(front[i] == items[i]);
                }
            }
        }
    }
}

/// The store after the item `update` has taken the place of the stored item
/// with the same id.
pub open spec fn replaced(items: Seq<WorkItemView>, update: WorkItemView) -> Seq<WorkItemView> {
    Seq::new(
        items.len(),
        |i: int|
            if items[i].id == update.id {
                update
            } else {
                items[i]
            },
    )
}

/// The store after each item of the batch, one after the other, has taken
/// the place of the stored item with the same id.
pub open spec fn updated(items: Seq<WorkItemView>, batch: Seq<WorkItemView>) -> Seq<WorkItemView>
    decreases batch.len(),
{
    if batch.len() == 0 {
        items
    } else {
        replaced(updated(items, batch.drop_last()), batch.last())
    }
}

/// Every item of the batch has an id.
pub open spec fn all_identified(batch: Seq<WorkItemView>) -> bool {
    forall|k: int| 0 <= k < batch.len() ==> (#[trigger] batch[k]).id is Some
}

/// Every item of the batch that has an id is in the store.
pub open spec fn all_stored(items: Seq<WorkItemView>, batch: Seq<WorkItemView>) -> bool {
    forall|k: int|
        0 <= k < batch.len() && (#[trigger] batch[k]).id is Some ==> lookup(items, batch[k].id->0)
            is Some
}

/// The views of a batch of items.
pub open spec fn batch_views(batch: Seq<&WorkItem>) -> Seq<WorkItemView> {
    Seq::new(batch.len(), |k: int| batch[k]@)
}

/// Replacing a stored item by a well-formed one with the same id keeps the
/// store well formed and keeps every id where it was.
pub proof fn lemma_replaced(items: Seq<WorkItemView>, update: WorkItemView)
    requires
        store_wf(items),
        update.wf(),
        update.id is Some,
    ensures
        store_wf(replaced(items, update)),
        replaced(items, update).len() == items.len(),
        forall|i: int| 0 <= i < items.len() ==> (#[trigger] replaced(items, update)[i]).id
            == items[i].id,
        forall|id: i32| lookup(replaced(items, update), id) is Some <==> lookup(items, id) is Some,
        lookup(items, update.id->0) is Some ==> lookup(replaced(items, update), update.id->0)
            == Some(update),
        forall|id: i32|
            id != update.id->0 ==> lookup(replaced(items, update), id) == lookup(items, id),
{
    let after = replaced(items, update);
    assert forall|i: int| 0 <= i < after.len() implies (#[trigger] after[i]).wf()
        && after[i].id is Some by {
        assert(items[i].wf());
    }
    assert forall|i: int, j: int| 0 <= i < j < after.len() implies (#[trigger] after[i]).id->0 < (
    #[trigger] after[j]).id->0 by {
        assert(items[i].id->0 < items[j].id->0);
    }
    assert forall|id: i32|
        (lookup(after, id) is Some <==> lookup(items, id) is Some) && (id != update.id->0
            ==> lookup(after, id) == lookup(items, id)) by {
        lemma_lookup(items, id);
        lemma_lookup(after, id);
        if lookup(items, id) is Some {
            let found = lookup(items, id)->0;
            let k = choose|k: int| 0 <= k < items.len() && items[k] == found;
            assert(after[k].id == Some(id));
        }
        if lookup(after, id) is Some {
            let found = lookup(after, id)->0;
            let k = choose|k: int| 0 <= k < after.len() && after[k] == found;
            assert(items[k].id == Some(id));
        }
    }
    if lookup(items, update.id->0) is Some {
        lemma_lookup(items, update.id->0);
        lemma_lookup(after, update.id->0);
        let found = lookup(items, update.id->0)->0;
        let k = choose|k: int| 0 <= k < items.len() && items[k] == found;
        assert(after[k] == update);
    }
}

/// After a batch of updates, an id that was in the store holds the last item
/// of the batch with that id, if the batch has one; every other id holds what
/// it held, and no id comes or goes.
pub proof fn lemma_updated(items: Seq<WorkItemView>, batch: Seq<WorkItemView>)
    requires
        store_wf(items),
        forall|k: int| 0 <= k < batch.len() ==> (#[trigger] batch[k]).wf() && batch[k].id is Some,
    ensures
        store_wf(updated(items, batch)),
        updated(items, batch).len() == items.len(),
        forall|id: i32|
            lookup(updated(items, batch), id) == if lookup(items, id) is Some && lookup(batch, id)
                is Some {
                lookup(batch, id)
            } else {
                lookup(items, id)
            },
    decreases batch.len(),
{
    if batch.len() > 0 {
        let front = batch.drop_last();
        let last = batch.last();
        assert(batch[batch.len() - 1].wf());
        assert forall|k: int| 0 <= k < front.len() implies (#[trigger] front[k]).wf()
            && front[k].id is Some by {
            assert(batch[k].wf());
        }
        lemma_updated(items, front);
        let middle = updated(items, front);
        let after = replaced(middle, last);
        lemma_replaced(middle, last);
        assert(updated(items, batch) == after);
        assert forall|id: i32|
            lookup(after, id) == if lookup(items, id) is Some && lookup(batch, id) is Some {
                lookup(batch, id)
            } else {
                lookup(items, id)
            } by {
            if last.id == Some(id) {
                assert(lookup(batch, id) == Some(last));
                if lookup(items, id) is Some {
                    assert(lookup(middle, id) is Some);
                } else {
                    assert(lookup(middle, id) is None);
                }
            } else {
                assert(lookup(batch, id) == lookup(front, id));
                assert(lookup(after, id) == lookup(middle, id));
            }
        }
    }
}

/// Where no item has the given id, leaving that id out leaves out nothing.
pub proof fn lemma_filter_without_match(items: Seq<WorkItemView>, id: i32)
    requires
        forall|i: int| 0 <= i < items.len() ==> (#[trigger] items[i]).id != Some(id),
    ensures
        items.filter(other_than(id)) == items,
    decreases items.len(),
{
    reveal(Seq::filter);
    if items.len() > 0 {
        let front = items.drop_last();
        assert forall|i: int| 0 <= i < front.len() implies (#[trigger] front[i]).id != Some(id) by {
            assert(items[i].id != Some(id));
        }
        lemma_filter_without_match(front, id);
        assert(items.last() == items[items.len() - 1]);
        assert(front.push(items.last()) =~= items);
    }
}

/// Where exactly the item at position `p` has the given id, leaving that id
/// out is removing the item at `p`.
pub proof fn lemma_filter_single_match(items: Seq<WorkItemView>, id: i32, p: int)
    requires
        0 <= p < items.len(),
        items[p].id == Some(id),
        forall|i: int| 0 <= i < items.len() && i != p ==> (#[trigger] items[i]).id != Some(id),
    ensures
        items.filter(other_than(id)) == items.remove(p),
    decreases items.len(),
{
    reveal(Seq::filter);
    let front = items.drop_last();
    if p == items.len() - 1 {
        assert forall|i: int| 0 <= i < front.len() implies (#[trigger] front[i]).id != Some(id) by {
            assert(items[i].id != Some(id));
        }
        lemma_filter_without_match(front, id);
        assert(front =~= items.remove(p));
    } else {
        assert forall|i: int| 0 <= i < front.len() && i != p implies (#[trigger] front[i]).id
            != Some(id) by {
            assert(items[i].id != Some(id));
        }
        lemma_filter_single_match(front, id, p);
        assert(items.last() == items[items.len() - 1]);
        assert(front.remove(p).push(items.last()) =~= items.remove(p));
    }
}

/// A well-formed store without the item at position `p` is a well-formed
/// store; the id of that item is gone, and every other id holds what it held.
pub proof fn lemma_removed(items: Seq<WorkItemView>, p: int)
    requires
        store_wf(items),
        0 <= p < items.len(),
    ensures
        store_wf(items.remove(p)),
        lookup(items.remove(p), items[p].id->0) is None,
        forall|other: i32|
            other != items[p].id->0 ==> lookup(items.remove(p), other) == lookup(items, other),
        forall|i: int| 0 <= i < items.len() && i != p ==> (#[trigger] items[i]).id != items[p].id,
{
    let rest = items.remove(p);
    let id = items[p].id->0;
    assert forall|i: int| 0 <= i < items.len() && i != p implies (#[trigger] items[i]).id
        != items[p].id by {
        if i < p {
            assert(items[i].id->0 < items[p].id->0);
        } else {
            assert(items[p].id->0 < items[i].id->0);
        }
    }
    assert forall|i: int| 0 <= i < rest.len() implies (#[trigger] rest[i]).wf()
        && rest[i].id is Some by {
        if i < p {
            assert(items[i].wf());
        } else {
            assert(items[i + 1].wf());
        }
    }
    assert forall|i: int, j: int| 0 <= i < j < rest.len() implies (#[trigger] rest[i]).id->0 < (
    #[trigger] rest[j]).id->0 by {
        let a = if i < p {
            i
        } else {
            i + 1
        };
        let b = if j < p {
            j
        } else {
            j + 1
        };
        assert(items[a].id->0 < items[b].id->0);
    }
    lemma_lookup(rest, id);
    if lookup(rest, id) is Some {
        let found = lookup(rest, id)->0;
        let k = choose|k: int| 0 <= k < rest.len() && rest[k] == found;
        if k < p {
            assert(items[k].id != items[p].id);
        } else {
            assert(items[k + 1].id != items[p].id);
        }
    }
    assert forall|other: i32| other != id implies lookup(rest, other) == lookup(items, other) by {
        lemma_lookup(rest, other);
        lemma_lookup(items, other);
        if lookup(items, other) is Some {
            let found = lookup(items, other)->0;
            let k = choose|k: int| 0 <= k < items.len() && items[k] == found;
            if k < p {
                assert(rest[k] == found);
            } else {
                assert(rest[k - 1] == found);
            }
        }
        if lookup(rest, other) is Some {
            let found = lookup(rest, other)->0;
            let k = choose|k: int| 0 <= k < rest.len() && rest[k] == found;
            if k < p {
                assert(items[k] == found);
            } else {
                assert(items[k + 1] == found);
            }
        }
    }
}

/// The id of the header row at position `k` is less than the next one.
spec fn id_step(logs: Seq<LogRow>, k: int) -> bool {
    logs[k].id < logs[k + 1].id
}

/// Header rows whose ids ascend from each to the next ascend throughout.
proof fn lemma_adjacent_ascending(logs: Seq<LogRow>, a: int, b: int)
    requires
        0 <= a < b < logs.len(),
        forall|k: int| 0 <= k < logs.len() - 1 ==> #[trigger] id_step(logs, k),
    ensures
        logs[a].id < logs[b].id,
    decreases b - a,
{
    if a + 1 < b {
        lemma_adjacent_ascending(logs, a, b - 1);
    }
    assert(id_step(logs, b - 1));
}

impl View for Store {
    type V = Seq<WorkItemView>;

    closed spec fn view(&self) -> Seq<WorkItemView> {
        item_views(self.items@)
    }
}

impl Store {
    /// Well-formedness of the store; every store that this module hands out has it.
    pub open spec fn wf(&self) -> bool {
        store_wf(self@)
    }

    /// An empty store.
    pub fn new() -> (store: Store)
        ensures
            store.wf(),
            store@ == Seq::<WorkItemView>::empty(),
    {
        let store = Store { items: Vec::new() };
        proof {
            assert(store@ =~= Seq::<WorkItemView>::empty());
        }
        store
    }

    /// The store that the rows of the three relations hold. The header rows
    /// must come in the order of their ids; the tag rows and the event rows
    /// may come in any order. Rows that cannot be read are refused.
    pub fn from_rows(logs: &Vec<LogRow>, tags: &Vec<TagRow>, events: &Vec<EventRow>) -> (result:
        Result<Store, StoreError>)
        ensures
            result is Ok <==> statuses_readable(log_rows(logs@)) && events_readable(
                event_rows(events@),
            ) && logs_restorable(log_rows(logs@), event_rows(events@)) && ids_ascending(
                log_rows(logs@),
            ),
            result matches Ok(store) ==> {
                &&& store.wf()
                &&& store@.len() == logs@.len()
                &&& forall|i: int|
                    0 <= i < store@.len() ==> restored(
                        #[trigger] store@[i],
                        logs@[i]@,
                        tag_rows(tags@),
                        event_rows(events@),
                    )
            },
            result matches Err(error) ==> error == if !statuses_readable(log_rows(logs@)) {
                StoreError::UnreadableStatus
            } else if !events_readable(event_rows(events@)) {
                StoreError::UnreadableEvent
            } else if !logs_restorable(log_rows(logs@), event_rows(events@)) {
                StoreError::MalformedLog
            } else {
                StoreError::DisorderedIds
            },
    {
        let items: Vec<WorkItem> = match create_work_items(logs, tags, events) {
            Ok(items) => items,
            Err(error) => {
                return Err(error);
            },
        };
        let mut i: usize = 1;
        while i < logs.len()
            invariant
                1 <= i,
                statuses_readable(log_rows(logs@)),
                events_readable(event_rows(events@)),
                logs_restorable(log_rows(logs@), event_rows(events@)),
                forall|k: int| 0 <= k < i - 1 && k < logs@.len() - 1
                    ==> #[trigger] id_step(logs@, k),
            decreases logs@.len() - i,
        {
            if logs[i - 1].id >= logs[i].id {
                proof {
                    let rows = log_rows(logs@);
                    assert(!(rows[i - 1].id < rows[i as int].id));
                }
                return Err(StoreError::DisorderedIds);
            }
            proof {
                assert(id_step(logs@, i - 1));
            }
            i = i + 1;
        }
        proof {
            let rows = log_rows(logs@);
            assert forall|a: int, b: int| 0 <= a < b < rows.len()
                implies (#[trigger] rows[a]).id < (
            #[trigger] rows[b]).id by {
                lemma_adjacent_ascending(logs@, a, b);
            }
        }
        let store = Store { items };
        proof {
            assert forall|k: int| 0 <= k < store@.len() implies (#[trigger] store@[k]).wf()
                && store@[k].id is Some by {
                assert(restored(items@[k]@, logs@[k]@, tag_rows(tags@), event_rows(events@)));
            }
            assert forall|a: int, b: int| 0 <= a < b < store@.len()
                implies (#[trigger] store@[a]).id->0
                < (#[trigger] store@[b]).id->0 by {
                assert(restored(items@[a]@, logs@[a]@, tag_rows(tags@), event_rows(events@)));
                assert(restored(items@[b]@, logs@[b]@, tag_rows(tags@), event_rows(events@)));
                assert(log_rows(logs@)[a].id < log_rows(logs@)[b].id);
            }
            assert forall|k: int| 0 <= k < store@.len() implies restored(
                #[trigger] store@[k],
                logs@[k]@,
                tag_rows(tags@),
                event_rows(events@),
            ) by {
                assert(restored(items@[k]@, logs@[k]@, tag_rows(tags@), event_rows(events@)));
            }
        }
        Ok(store)
    }

    /// The rows of the three relations under which the store is kept: a
    /// header row for each item, a tag row for each tag of it and an event row
    /// for each event of it, item after item.
    pub fn rows(&self) -> (rows: (Vec<LogRow>, Vec<TagRow>, Vec<EventRow>))
        requires
            self.wf(),
        ensures
            log_rows(rows.0@) == all_header_rows(self@),
            tag_rows(rows.1@) == all_tag_rows(self@),
            event_rows(rows.2@) == all_event_rows(self@),
    {
        let mut logs: Vec<LogRow> = Vec::new();
        let mut tags: Vec<TagRow> = Vec::new();
        let mut events: Vec<EventRow> = Vec::new();
        let mut i: usize = 0;
        proof {
            assert(self@.take(0) =~= Seq::<WorkItemView>::empty());
            assert(tag_rows(tags@) =~= all_tag_rows(self@.take(0)));
            assert(event_rows(events@) =~= all_event_rows(self@.take(0)));
        }
        while i < self.items.len()
            invariant
                i <= self.items@.len(),
                self@.len() == self.items@.len(),
                self.wf(),
                logs@.len() == i,
                forall|k: int| 0 <= k < i ==> (#[trigger] logs@[k])@ == header_row_of(self@[k]),
                tag_rows(tags@) == all_tag_rows(self@.take(i as int)),
                event_rows(events@) == all_event_rows(self@.take(i as int)),
            decreases self.items@.len() - i,
        {
            let item: &WorkItem = &self.items[i];
            let ghost view = self@[i as int];
            proof {
                assert(view.wf() && view.id is Some);
                assert(self@.take(i + 1).drop_last() =~= self@.take(i as int));
                assert(self@.take(i + 1).last() == view);
            }
            let id: i32 = match item.id() {
                Some(id) => id,
                None => 0,
            };
            logs.push(
                LogRow {
                    id,
                    description: item.description().clone(),
                    status: item.status().to_string(),
                },
            );
            let item_tags: Vec<String> = item.tags();
            let ghost tags_before = tag_rows(tags@);
            let mut k: usize = 0;
            proof {
                assert(tag_rows_of(view).take(0) =~= Seq::<TagRowView>::empty());
                assert(tags_before + Seq::<TagRowView>::empty() =~= tags_before);
            }
            while k < item_tags.len()
                invariant
                    k <= item_tags@.len(),
                    view.id == Some(id),
                    crate::work_item::tags::tag_texts(item_tags@) == view.tags,
                    tag_rows(tags@) == tags_before + tag_rows_of(view).take(k as int),
                decreases item_tags@.len() - k,
            {
                let ghost sofar = tag_rows(tags@);
                proof {
                    assert(crate::work_item::tags::tag_texts(item_tags@)[k as int]
                        == view.tags[k as int]);
                }
                tags.push(TagRow { log_id: id, tag: item_tags[k].clone() });
                proof {
                    assert(tag_rows(tags@) =~= sofar.push(tag_rows_of(view)[k as int]));
                    assert(tag_rows_of(view).take(k + 1) =~= tag_rows_of(view).take(k as int).push(
                        tag_rows_of(view)[k as int],
                    ));
                    assert(tag_rows(tags@) =~= tags_before + tag_rows_of(view).take(k + 1));
                }
                k = k + 1;
            }
            proof {
                assert(crate::work_item::tags::tag_texts(item_tags@).len() == view.tags.len());
                assert(tag_rows_of(view).take(item_tags@.len() as int) =~= tag_rows_of(view));
            }
            let item_events: &[Event] = item.events();
            let ghost events_before = event_rows(events@);
            let mut m: usize = 0;
            proof {
                assert(event_rows_of(view).take(0) =~= Seq::<EventRowView>::empty());
                assert(events_before + Seq::<EventRowView>::empty() =~= events_before);
            }
            while m < item_events.len()
                invariant
                    m <= item_events@.len(),
                    view.id == Some(id),
                    item_events@ == view.events,
                    event_rows(events@) == events_before + event_rows_of(view).take(m as int),
                decreases item_events@.len() - m,
            {
                let ghost sofar = event_rows(events@);
                events.push(
                    EventRow {
                        log_id: id,
                        timestamp: item_events[m].timestamp(),
                        event: item_events[m].event_type().to_string(),
                    },
                );
                proof {
                    assert(event_rows(events@) =~= sofar.push(event_rows_of(view)[m as int]));
                    assert(event_rows_of(view).take(m + 1) =~= event_rows_of(view).take(
                        m as int,
                    ).push(event_rows_of(view)[m as int]));
                    assert(event_rows(events@) =~= events_before + event_rows_of(view).take(m + 1));
                }
                m = m + 1;
            }
            proof {
                assert(event_rows_of(view).take(item_events@.len() as int) =~= event_rows_of(view));
            }
            i = i + 1;
        }
        proof {
            assert(self@.take(self@.len() as int) =~= self@);
            assert(log_rows(logs@) =~= all_header_rows(self@));
        }
        (logs, tags, events)
    }

    /// Position of the item with the given id.
    fn position(&self, id: i32) -> (place: Option<usize>)
        requires
            self.wf(),
        ensures
            match place {
                Some(p) => p < self@.len() && self@[p as int].id == Some(id) && lookup(self@, id)
                    == Some(self@[p as int]),
                None => lookup(self@, id) is None,
            },
    {
        let mut i: usize = 0;
        proof {
            lemma_lookup(self@, id);
        }
        while i < self.items.len()
            invariant
                i <= self.items@.len(),
                self@.len() == self.items@.len(),
                forall|k: int| 0 <= k < i ==> (#[trigger] self@[k]).id != Some(id),
                forall|k: int|
                    0 <= k < self@.len() && (#[trigger] self@[k]).id == Some(id) ==> lookup(
                        self@,
                        id,
                    ) == Some(self@[k]),
                lookup(self@, id) matches Some(item) ==> self@.contains(item) && item.id
                    == Some(id),
            decreases self.items@.len() - i,
        {
            if self.items[i].id() == Some(id) {
                return Some(i);
            }
            i = i + 1;
        }
        proof {
            if lookup(self@, id) is Some {
                let found = lookup(self@, id)->0;
                let k = choose|k: int| 0 <= k < self@.len() && self@[k] == found;
                assert(self@[k].id != Some(id));
            }
        }
        None
    }
}

impl DataAccess for Store {
    open spec fn stored(&self) -> Seq<WorkItemView> {
        self@
    }

    fn log_item(&mut self, item: WorkItem) -> (result: Result<i32, StoreError>) {
        let count: usize = self.items.len();
        let id: i32 = if count == 0 {
            1
        } else {
            match self.items[count - 1].id() {
                Some(greatest) => {
                    if greatest == i32::MAX {
                        return Err(StoreError::NoFreeId);
                    }
                    greatest + 1
                },
                None => {
                    proof {
                        assert(self@[count - 1].id is Some);
                    }
                    return Err(StoreError::NoFreeId);
                },
            }
        };
        proof {
            lemma_lookup(self@, id);
            if lookup(self@, id) is Some {
                let found = lookup(self@, id)->0;
                let k = choose|k: int| 0 <= k < self@.len() && self@[k] == found;
                if k < count - 1 {
                    assert(self@[k].id->0 < self@[count - 1].id->0);
                }
            }
        }
        let ghost before = self@;
        let stored: WorkItem = item.stored_as(id);
        self.items.push(stored);
        proof {
            assert(self@ =~= before.push(WorkItemView { id: Some(id), ..item@ }));
            assert forall|i: int, j: int| 0 <= i < j < self@.len()
                implies (#[trigger] self@[i]).id->0
                < (#[trigger] self@[j]).id->0 by {
                if j < count {
                    assert(before[i].id->0 < before[j].id->0);
                } else if i < count - 1 {
                    assert(before[i].id->0 < before[count - 1].id->0);
                }
            }
            assert forall|i: int| 0 <= i < self@.len() implies (#[trigger] self@[i]).wf()
                && self@[i].id is Some by {
                if i < count {
                    assert(before[i].wf());
                }
            }
        }
        Ok(id)
    }

    fn list_items(&self) -> (items: Vec<WorkItem>) {
        let mut items: Vec<WorkItem> = Vec::new();
        let mut i: usize = 0;
        while i < self.items.len()
            invariant
                i <= self.items@.len(),
                items@.len() == i,
                forall|k: int| 0 <= k < i ==> (#[trigger] items@[k])@ == self.items@[k]@,
            decreases self.items@.len() - i,
        {
            items.push(self.items[i].duplicate());
            i = i + 1;
        }
        proof {
            assert(item_views(items@) =~= self@);
        }
        items
    }

    fn find_item_by_id(&self, id: i32) -> (found: Option<WorkItem>) {
        match self.position(id) {
            Some(place) => {
                proof {
                    assert(self@[place as int].wf());
                }
                Some(self.items[place].duplicate())
            },
            None => None,
        }
    }

    fn update_items(&mut self, items: Vec<&WorkItem>) -> (result: Result<(), StoreError>) {
        let ghost batch = batch_views(items@);
        let mut k: usize = 0;
        while k < items.len()
            invariant
                k <= items@.len(),
                self.wf(),
                self@ == old(self)@,
                batch == batch_views(items@),
                forall|j: int| 0 <= j < k ==> (#[trigger] batch[j]).id is Some,
            decreases items@.len() - k,
        {
            if items[k].id().is_none() {
                proof {
                    assert(batch[k as int].id is None);
                }
                return Err(StoreError::MissingId);
            }
            k = k + 1;
        }
        k = 0;
        while k < items.len()
            invariant
                k <= items@.len(),
                self.wf(),
                self@ == old(self)@,
                batch == batch_views(items@),
                all_identified(batch),
                forall|j: int| 0 <= j < k ==> lookup(self@, (#[trigger] batch[j]).id->0) is Some,
            decreases items@.len() - k,
        {
            let stored: bool = match items[k].id() {
                Some(id) => self.position(id).is_some(),
                None => false,
            };
            if !stored {
                proof {
                    assert(batch[k as int].id is Some);
                    assert(lookup(self@, batch[k as int].id->0) is None);
                }
                return Err(StoreError::UnknownItem);
            }
            k = k + 1;
        }
        k = 0;
        proof {
            assert(batch.take(0) =~= Seq::<WorkItemView>::empty());
        }
        while k < items.len()
            invariant
                k <= items@.len(),
                self.wf(),
                batch == batch_views(items@),
                all_identified(batch),
                forall|j: int| 0 <= j < items@.len() ==> (#[trigger] items@[j]).wf(),
                forall|j: int|
                    0 <= j < batch.len() ==> lookup(self@, (#[trigger] batch[j]).id->0) is Some,
                self@ == updated(old(self)@, batch.take(k as int)),
            decreases items@.len() - k,
        {
            let item: &WorkItem = items[k];
            let ghost before = self@;
            proof {
                assert(batch[k as int] == item@);
                assert(batch.take(k + 1).drop_last() =~= batch.take(k as int));
                assert(batch.take(k + 1).last() == item@);
                lemma_replaced(before, item@);
            }
            match item.id() {
                Some(id) => {
                    match self.position(id) {
                        Some(place) => {
                            self.items.set(place, item.duplicate());
                            proof {
                                assert(self@ =~= replaced(before, item@)) by {
                                    assert forall|i: int| 0 <= i < before.len() implies self@[i]
                                        == replaced(before, item@)[i] by {
                                        if i != place {
                                            if i < place {
                                                assert(before[i].id->0
                                                    < before[place as int].id->0);
                                            } else {
                                                assert(before[place as int].id->0
                                                    < before[i].id->0);
                                            }
                                        }
                                    }
                                }
                            }
                        },
                        None => {
                            proof {
                                assert(lookup(before, batch[k as int].id->0) is Some);
                            }
                        },
                    }
                },
                None => {
                    proof {
                        assert(batch[k as int].id is Some);
                    }
                },
            }
            k = k + 1;
        }
        proof {
            assert(batch.take(items@.len() as int) =~= batch);
        }
        Ok(())
    }

    fn find_items_by_status(&self, status: Status) -> (found: Vec<WorkItem>) {
        let mut found: Vec<WorkItem> = Vec::new();
        let mut i: usize = 0;
        proof {
            reveal(Seq::filter);
            assert(self@.take(0) =~= Seq::<WorkItemView>::empty());
            assert(item_views(found@) =~= self@.take(0).filter(has_status(status)));
        }
        while i < self.items.len()
            invariant
                i <= self.items@.len(),
                self@.len() == self.items@.len(),
                item_views(found@) == self@.take(i as int).filter(has_status(status)),
            decreases self.items@.len() - i,
        {
            let ghost before = item_views(found@);
            proof {
                reveal(Seq::filter);
                assert(self@.take(i + 1).drop_last() =~= self@.take(i as int));
                assert(self@.take(i + 1).last() == self.items@[i as int]@);
            }
            if self.items[i].status() == status {
                found.push(self.items[i].duplicate());
                proof {
                    assert(item_views(found@) =~= before.push(self.items@[i as int]@));
                }
            }
            i = i + 1;
        }
        proof {
            assert(self@.take(self@.len() as int) =~= self@);
        }
        found
    }

    fn filter_items(&self, from_timestamp: i64, to_timestamp: i64) -> (found: Vec<WorkItem>) {
        let mut found: Vec<WorkItem> = Vec::new();
        let mut i: usize = 0;
        proof {
            reveal(Seq::filter);
            assert(self@.take(0) =~= Seq::<WorkItemView>::empty());
            assert(item_views(found@) =~= self@.take(0).filter(
                started_within(from_timestamp, to_timestamp),
            ));
        }
        while i < self.items.len()
            invariant
                i <= self.items@.len(),
                self@.len() == self.items@.len(),
                self.wf(),
                item_views(found@) == self@.take(i as int).filter(
                    started_within(from_timestamp, to_timestamp),
                ),
            decreases self.items@.len() - i,
        {
            let ghost before = item_views(found@);
            proof {
                reveal(Seq::filter);
                assert(self@.take(i + 1).drop_last() =~= self@.take(i as int));
                assert(self@.take(i + 1).last() == self.items@[i as int]@);
                assert(self@[i as int].wf());
            }
            let created: i64 = self.items[i].created_timestamp();
            if from_timestamp <= created && created < to_timestamp {
                found.push(self.items[i].duplicate());
                proof {
                    assert(item_views(found@) =~= before.push(self.items@[i as int]@));
                }
            }
            i = i + 1;
        }
        proof {
            assert(self@.take(self@.len() as int) =~= self@);
        }
        found
    }

    fn delete_item(&mut self, id: i32) -> (deleted: Option<WorkItem>) {
        let ghost before = self@;
        proof {
            lemma_lookup(before, id);
        }
        match self.position(id) {
            Some(place) => {
                let item: WorkItem = self.items.remove(place);
                proof {
                    assert(self@ =~= before.remove(place as int));
                    assert(before[place as int].wf());
                    lemma_removed(before, place as int);
                    lemma_filter_single_match(before, id, place as int);
                }
                Some(item)
            },
            None => {
                proof {
                    lemma_filter_without_match(before, id);
                }
                None
            },
        }
    }

    fn clear(&mut self) {
        self.items.clear();
        proof {
            assert(self@ =~= Seq::<WorkItemView>::empty());
        }
    }
}

} // verus!
