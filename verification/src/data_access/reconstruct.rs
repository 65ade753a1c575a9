//! Work items from rows and rows from work items.

use crate::data_access::chronology::{chronological, sort_events};
use crate::data_access::error::StoreError;
use crate::data_access::rows::{
    event_rows, events_for, events_readable, log_rows, statuses_readable, tag_rows, tags_for,
    EventRow, EventRowView, LogRow, LogRowView, TagRow, TagRowView,
};
use crate::work_item::event::Event;
use crate::work_item::event_type::EventType;
use crate::work_item::log::well_formed_log;
use crate::work_item::status::Status;
use crate::work_item::tags::{copy_tags, tag_texts};
use crate::work_item::work_item::{WorkItem, WorkItemView};
use std::collections::HashMap;
use vstd::prelude::*;

verus! {

/// The item is what the rows hold under the header `log`: its description,
/// the tags and the events that carry its id, the events in the order of
/// their timestamps, and the status that the latest event gives.
pub open spec fn restored(
    item: WorkItemView,
    log: LogRowView,
    tags: Seq<TagRowView>,
    events: Seq<EventRowView>,
) -> bool {
    &&& item.wf()
    &&& item.id == Some(log.id)
    &&& item.description == log.description
    &&& item.tag_set() == tags_for(tags, log.id).to_set()
    &&& item.events == chronological(events_for(events, log.id))
}

/// The events of the header at position `i`, sorted, are a log that the
/// lifecycle can produce.
pub open spec fn log_restorable(logs: Seq<LogRowView>, events: Seq<EventRowView>, i: int) -> bool {
    well_formed_log(chronological(events_for(events, logs[i].id)))
}

/// Under every header the rows hold a log that the lifecycle can produce.
pub open spec fn logs_restorable(logs: Seq<LogRowView>, events: Seq<EventRowView>) -> bool {
    forall|i: int| 0 <= i < logs.len() ==> #[trigger] log_restorable(logs, events, i)
}

/// Tells whether every header row holds the token of a status.
fn all_statuses_readable(logs: &Vec<LogRow>) -> (readable: bool)
    ensures
        readable == statuses_readable(log_rows(logs@)),
{
    let mut i: usize = 0;
    while i < logs.len()
        invariant
            i <= logs@.len(),
            forall|k: int| 0 <= k < i
                ==> Status::of_token(#[trigger] log_rows(logs@)[k].status) is Some,
        decreases logs@.len() - i,
    {
        if Status::from_str(logs[i].status.as_str()).is_err() {
            proof {
                assert(Status::of_token(log_rows(logs@)[i as int].status) is None);
            }
            return false;
        }
        i = i + 1;
    }
    true
}

/// What a lookup of tags holds under an id: the tags that the rows give to
/// that id, and no entry where they give none.
pub open spec fn tags_looked_up(
    lookup: Map<i32, Vec<String>>,
    rows: Seq<TagRowView>,
    id: i32,
) -> bool {
    if lookup.contains_key(id) {
        tag_texts(lookup[id]@) == tags_for(rows, id)
    } else {
        tags_for(rows, id).len() == 0
    }
}

/// What a lookup of events holds under an id: the events that the rows give
/// to that id, and no entry where they give none.
pub open spec fn events_looked_up(
    lookup: Map<i32, Vec<Event>>,
    rows: Seq<EventRowView>,
    id: i32,
) -> bool {
    if lookup.contains_key(id) {
        lookup[id]@ == events_for(rows, id)
    } else {
        events_for(rows, id).len() == 0
    }
}

/// Create a tags lookup from the passed tag rows: under each id the tags
/// that carry it, in the order of the rows.
fn tags_lookup_from_rows(tags: &Vec<TagRow>) -> (lookup: HashMap<i32, Vec<String>>)
    ensures
        forall|id: i32| tags_looked_up(lookup@, tag_rows(tags@), id),
{
    broadcast use vstd::std_specs::hash::group_hash_axioms;

    let ghost rows = tag_rows(tags@);
    let mut tags_lookup: HashMap<i32, Vec<String>> = HashMap::new();
    let mut i: usize = 0;
    proof {
        assert(rows.take(0) =~= Seq::<TagRowView>::empty());
    }
    while i < tags.len()
        invariant
            i <= tags@.len(),
            rows == tag_rows(tags@),
            forall|id: i32| tags_looked_up(tags_lookup@, rows.take(i as int), id),
        decreases tags@.len() - i,
    {
        let log_id: i32 = tags[i].log_id;
        let tag: String = tags[i].tag.clone();
        let ghost before = tags_lookup@;
        proof {
            assert(rows.take(i + 1).drop_last() =~= rows.take(i as int));
            assert(rows.take(i + 1).last() == tags@[i as int]@);
            assert(tags_looked_up(before, rows.take(i as int), log_id));
        }
        let mut list: Vec<String> = match tags_lookup.remove(&log_id) {
            Some(list) => list,
            None => Vec::new(),
        };
        let ghost earlier = tag_texts(list@);
        proof {
            assert(earlier =~= tags_for(rows.take(i as int), log_id));
        }
        list.push(tag);
        proof {
            assert(tag_texts(list@) =~= earlier.push(tags@[i as int].tag@));
        }
        tags_lookup.insert(log_id, list);
        proof {
            let longer = rows.take(i + 1);
            assert forall|id: i32| tags_looked_up(tags_lookup@, longer, id) by {
                assert(tags_looked_up(before, rows.take(i as int), id));
            }
        }
        i = i + 1;
    }
    proof {
        assert(rows.take(tags@.len() as int) =~= rows);
    }
    tags_lookup
}

/// Create an events lookup from the passed event rows: under each id the
/// events that carry it, in the order of the rows. A row whose event type
/// cannot be read is refused.
fn events_lookup_from_rows(events: &Vec<EventRow>) -> (result: Result<
    HashMap<i32, Vec<Event>>,
    StoreError,
>)
    ensures
        result is Ok <==> events_readable(event_rows(events@)),
        result matches Ok(lookup) ==> forall|id: i32|
            events_looked_up(lookup@, event_rows(events@), id),
        result matches Err(error) ==> error == StoreError::UnreadableEvent,
{
    broadcast use vstd::std_specs::hash::group_hash_axioms;

    let ghost rows = event_rows(events@);
    let mut events_lookup: HashMap<i32, Vec<Event>> = HashMap::new();
    let mut i: usize = 0;
    proof {
        assert(rows.take(0) =~= Seq::<EventRowView>::empty());
    }
    while i < events.len()
        invariant
            i <= events@.len(),
            rows == event_rows(events@),
            forall|k: int| 0 <= k < i ==> EventType::of_token(#[trigger] rows[k].event) is Some,
            forall|id: i32| events_looked_up(events_lookup@, rows.take(i as int), id),
        decreases events@.len() - i,
    {
        let log_id: i32 = events[i].log_id;
        let timestamp: i64 = events[i].timestamp;
        let event_type: EventType = match EventType::from_str(events[i].event.as_str()) {
            Ok(event_type) => event_type,
            Err(_) => {
                proof {
                    assert(EventType::of_token(rows[i as int].event) is None);
                }
                return Err(StoreError::UnreadableEvent);
            },
        };
        let ghost before = events_lookup@;
        proof {
            assert(rows.take(i + 1).drop_last() =~= rows.take(i as int));
            assert(rows.take(i + 1).last() == events@[i as int]@);
            assert(events_looked_up(before, rows.take(i as int), log_id));
        }
        let mut list: Vec<Event> = match events_lookup.remove(&log_id) {
            Some(list) => list,
            None => Vec::new(),
        };
        proof {
            assert(list@ =~= events_for(rows.take(i as int), log_id));
        }
        list.push(Event::new(event_type, timestamp));
        events_lookup.insert(log_id, list);
        proof {
            let longer = rows.take(i + 1);
            assert forall|id: i32| events_looked_up(events_lookup@, longer, id) by {
                assert(events_looked_up(before, rows.take(i as int), id));
            }
        }
        i = i + 1;
    }
    proof {
        assert(rows.take(events@.len() as int) =~= rows);
    }
    Ok(events_lookup)
}

/// Create the work items that the rows of the three relations hold, one for
/// each header row and in the order of the header rows.
///
/// The rows may come in any order. Tags and events are gathered by the id
/// that they carry, and the events of each item are sorted by their
/// timestamp. The status of an item is derived from its events; the stored
/// one is read, and must be readable, but decides nothing.
///
/// Rows that cannot be read are refused, not guessed at: a status or an event
/// type that is no known token, and events that form no valid log.
pub fn create_work_items(logs: &Vec<LogRow>, tags: &Vec<TagRow>, events: &Vec<EventRow>) -> (result:
    Result<Vec<WorkItem>, StoreError>)
    ensures
        result is Ok <==> statuses_readable(log_rows(logs@)) && events_readable(event_rows(events@))
            && logs_restorable(log_rows(logs@), event_rows(events@)),
        result matches Ok(items) ==> {
            &&& items@.len() == logs@.len()
            &&& forall|i: int|
                0 <= i < items@.len() ==> restored(
                    #[trigger] items@[i]@,
                    logs@[i]@,
                    tag_rows(tags@),
                    event_rows(events@),
                )
        },
        result matches Err(error) ==> error == if !statuses_readable(log_rows(logs@)) {
            StoreError::UnreadableStatus
        } else if !events_readable(event_rows(events@)) {
            StoreError::UnreadableEvent
        } else {
            StoreError::MalformedLog
        },
{
    broadcast use vstd::std_specs::hash::group_hash_axioms;

    if !all_statuses_readable(logs) {
        return Err(StoreError::UnreadableStatus);
    }

    // Fetch and cache tags for later lookup
    let tags_lookup: HashMap<i32, Vec<String>> = tags_lookup_from_rows(tags);

    // Fetch and cache events for later lookup
    let events_lookup: HashMap<i32, Vec<Event>> = match events_lookup_from_rows(events) {
        Ok(events_lookup) => events_lookup,
        Err(error) => {
            return Err(error);
        },
    };

    // Create work items from the cached data
    let mut items: Vec<WorkItem> = Vec::new();
    let mut i: usize = 0;
    while i < logs.len()
        invariant
            i <= logs@.len(),
            items@.len() == i,
            statuses_readable(log_rows(logs@)),
            events_readable(event_rows(events@)),
            forall|id: i32| tags_looked_up(tags_lookup@, tag_rows(tags@), id),
            forall|id: i32| events_looked_up(events_lookup@, event_rows(events@), id),
            forall|k: int|
                0 <= k < i ==> restored(
                    #[trigger] items@[k]@,
                    logs@[k]@,
                    tag_rows(tags@),
                    event_rows(events@),
                ),
            forall|k: int|
                0 <= k < i ==> #[trigger] log_restorable(log_rows(logs@), event_rows(events@), k),
        decreases logs@.len() - i,
    {
        let log: &LogRow = &logs[i];
        let status: Status = match Status::from_str(log.status.as_str()) {
            Ok(status) => status,
            Err(_) => Status::Done,
        };
        proof {
            assert(tags_looked_up(tags_lookup@, tag_rows(tags@), log.id));
            assert(events_looked_up(events_lookup@, event_rows(events@), log.id));
        }

        // Retrieve cached tags
        let item_tags: Vec<String> = match tags_lookup.get(&log.id) {
            Some(found) => copy_tags(found),
            None => Vec::new(),
        };
        proof {
            assert(tag_texts(item_tags@) =~= tags_for(tag_rows(tags@), log.id));
        }

        // Retrieve cached events and sort them by their timestamp
        let item_events: Vec<Event> = match events_lookup.get(&log.id) {
            Some(found) => sort_events(found),
            None => Vec::new(),
        };
        proof {
            if !events_lookup@.contains_key(log.id) {
                assert(events_for(event_rows(events@), log.id) =~= Seq::<Event>::empty());
            }
        }
        let description: String = log.description.clone();
        match WorkItem::new_internal(log.id, description, status, item_tags, item_events) {
            Ok(item) => {
                items.push(item);
            },
            Err(_) => {
                proof {
                    assert(!log_restorable(log_rows(logs@), event_rows(events@), i as int));
                }
                return Err(StoreError::MalformedLog);
            },
        }
        proof {
            assert(log_restorable(log_rows(logs@), event_rows(events@), i as int));
        }
        i = i + 1;
    }
    Ok(items)
}

/// The header row under which an item is stored.
pub open spec fn header_row_of(item: WorkItemView) -> LogRowView {
    LogRowView { id: item.id->0, description: item.description, status: item.status.token() }
}

/// The tag rows under which an item is stored: one for each tag, in
/// alphabetical order.
pub open spec fn tag_rows_of(item: WorkItemView) -> Seq<TagRowView> {
    Seq::new(item.tags.len(), |k: int| TagRowView { log_id: item.id->0, tag: item.tags[k] })
}

/// The event rows under which an item is stored: one for each event, in the
/// order of the log.
pub open spec fn event_rows_of(item: WorkItemView) -> Seq<EventRowView> {
    Seq::new(
        item.events.len(),
        |k: int|
            EventRowView {
                log_id: item.id->0,
                timestamp: item.events[k].timestamp,
                event: item.events[k].event_type.token(),
            },
    )
}

/// The header rows of the items, one after the other.
pub open spec fn all_header_rows(items: Seq<WorkItemView>) -> Seq<LogRowView> {
    Seq::new(items.len(), |i: int| header_row_of(items[i]))
}

/// The tag rows of the items, one item after the other.
pub open spec fn all_tag_rows(items: Seq<WorkItemView>) -> Seq<TagRowView>
    decreases items.len(),
{
    if items.len() == 0 {
        Seq::empty()
    } else {
        all_tag_rows(items.drop_last()) + tag_rows_of(items.last())
    }
}

/// The event rows of the items, one item after the other.
pub open spec fn all_event_rows(items: Seq<WorkItemView>) -> Seq<EventRowView>
    decreases items.len(),
{
    if items.len() == 0 {
        Seq::empty()
    } else {
        all_event_rows(items.drop_last()) + event_rows_of(items.last())
    }
}

/// The tag rows of an item give its tags to its id and nothing to another id.
pub proof fn lemma_tags_for_own_rows(item: WorkItemView, id: i32)
    requires
        item.id is Some,
    ensures
        tags_for(tag_rows_of(item), id) == if item.id == Some(id) {
            item.tags
        } else {
            Seq::empty()
        },
    decreases item.tags.len(),
{
    let rows = tag_rows_of(item);
    if item.tags.len() > 0 {
        let shorter = WorkItemView { tags: item.tags.drop_last(), ..item };
        lemma_tags_for_own_rows(shorter, id);
        assert(rows.drop_last() =~= tag_rows_of(shorter));
        if item.id == Some(id) {
            assert(tags_for(rows, id) =~= item.tags);
        }
    } else {
        assert(tags_for(rows, id) =~= Seq::<Seq<char>>::empty());
        assert(item.tags =~= Seq::<Seq<char>>::empty());
    }
}

/// The event rows of an item are readable, and they give its events to its
/// id and nothing to another id.
pub proof fn lemma_events_for_own_rows(item: WorkItemView, id: i32)
    requires
        item.id is Some,
    ensures
        events_readable(event_rows_of(item)),
        events_for(event_rows_of(item), id) == if item.id == Some(id) {
            item.events
        } else {
            Seq::empty()
        },
    decreases item.events.len(),
{
    let rows = event_rows_of(item);
    assert forall|k: int| 0 <= k < rows.len()
        implies EventType::of_token(#[trigger] rows[k].event) is Some by {
        crate::work_item::event_type::lemma_event_type_token_injective(
            item.events[k].event_type,
            item.events[k].event_type,
        );
    }
    if item.events.len() > 0 {
        let shorter = WorkItemView { events: item.events.drop_last(), ..item };
        lemma_events_for_own_rows(shorter, id);
        assert(rows.drop_last() =~= event_rows_of(shorter));
        crate::work_item::event_type::lemma_event_type_token_injective(
            item.events.last().event_type,
            item.events.last().event_type,
        );
        if item.id == Some(id) {
            assert(events_for(rows, id) =~= item.events);
        }
    } else {
        assert(events_for(rows, id) =~= Seq::<Event>::empty());
        assert(item.events =~= Seq::<Event>::empty());
    }
}

/// Among the rows of items with different ids, the rows under the id of the
/// item at position `i` hold the tags and the events of that item.
pub proof fn lemma_rows_for_item(items: Seq<WorkItemView>, i: int)
    requires
        0 <= i < items.len(),
        forall|k: int| 0 <= k < items.len() ==> (#[trigger] items[k]).id is Some,
        forall|k: int| 0 <= k < items.len() && k != i ==> (#[trigger] items[k]).id != items[i].id,
    ensures
        tags_for(all_tag_rows(items), items[i].id->0) == items[i].tags,
        events_for(all_event_rows(items), items[i].id->0) == items[i].events,
        events_readable(all_event_rows(items)),
    decreases items.len(),
{
    let id = items[i].id->0;
    let front = items.drop_last();
    let last = items.last();
    crate::data_access::rows::lemma_tags_for_concat(all_tag_rows(front), tag_rows_of(last), id);
    crate::data_access::rows::lemma_events_for_concat(
        all_event_rows(front),
        event_rows_of(last),
        id,
    );
    lemma_tags_for_own_rows(last, id);
    lemma_events_for_own_rows(last, id);
    lemma_all_event_rows_readable(front);
    if i == items.len() - 1 {
        lemma_other_rows_empty(front, id);
        assert(Seq::<Seq<char>>::empty() + last.tags =~= last.tags);
        assert(Seq::<Event>::empty() + last.events =~= last.events);
    } else {
        assert(items[items.len() - 1].id != items[i].id);
        assert(front[i] == items[i]);
        assert forall|k: int| 0 <= k < front.len() && k != i implies (#[trigger] front[k]).id
            != front[i].id by {
            assert(items[k].id != items[i].id);
        }
        assert forall|k: int| 0 <= k < front.len() implies (#[trigger] front[k]).id is Some by {
            assert(items[k].id is Some);
        }
        lemma_rows_for_item(front, i);
        assert(items[i].tags + Seq::<Seq<char>>::empty() =~= items[i].tags);
        assert(items[i].events + Seq::<Event>::empty() =~= items[i].events);
    }
    let all = all_event_rows(items);
    assert forall|k: int| 0 <= k < all.len()
        implies EventType::of_token(#[trigger] all[k].event) is Some by {
        if k < all_event_rows(front).len() {
            assert(all[k] == all_event_rows(front)[k]);
        } else {
            assert(all[k] == event_rows_of(last)[k - all_event_rows(front).len()]);
        }
    }
}

/// The event rows of items that have ids are readable.
pub proof fn lemma_all_event_rows_readable(items: Seq<WorkItemView>)
    requires
        forall|k: int| 0 <= k < items.len() ==> (#[trigger] items[k]).id is Some,
    ensures
        events_readable(all_event_rows(items)),
    decreases items.len(),
{
    if items.len() > 0 {
        let front = items.drop_last();
        let last = items.last();
        assert(items[items.len() - 1].id is Some);
        assert forall|k: int| 0 <= k < front.len() implies (#[trigger] front[k]).id is Some by {
            assert(items[k].id is Some);
        }
        lemma_all_event_rows_readable(front);
        lemma_events_for_own_rows(last, 0);
        let all = all_event_rows(items);
        assert forall|k: int| 0 <= k < all.len() implies EventType::of_token(
            #[trigger] all[k].event,
        ) is Some by {
            if k < all_event_rows(front).len() {
                assert(all[k] == all_event_rows(front)[k]);
            } else {
                assert(all[k] == event_rows_of(last)[k - all_event_rows(front).len()]);
            }
        }
    }
}

/// The rows of items of which none has the given id give nothing to that id.
pub proof fn lemma_other_rows_empty(items: Seq<WorkItemView>, id: i32)
    requires
        forall|k: int| 0 <= k < items.len() ==> (#[trigger] items[k]).id is Some && items[k].id
            != Some(id),
    ensures
        tags_for(all_tag_rows(items), id) == Seq::<Seq<char>>::empty(),
        events_for(all_event_rows(items), id) == Seq::<Event>::empty(),
    decreases items.len(),
{
    if items.len() > 0 {
        let front = items.drop_last();
        let last = items.last();
        assert(items[items.len() - 1].id != Some(id));
        assert forall|k: int| 0 <= k < front.len() implies (#[trigger] front[k]).id is Some
            && front[k].id != Some(id) by {
            assert(items[k].id != Some(id));
        }
        lemma_other_rows_empty(front, id);
        crate::data_access::rows::lemma_tags_for_concat(all_tag_rows(front), tag_rows_of(last), id);
        crate::data_access::rows::lemma_events_for_concat(
            all_event_rows(front),
            event_rows_of(last),
            id,
        );
        lemma_tags_for_own_rows(last, id);
        lemma_events_for_own_rows(last, id);
    }
}

/// What is written is what is read back: the rows under which well-formed
/// items with different ids are stored are readable, hold a valid log for
/// each item, and restore each item exactly, with its description, its
/// tags, its events in their order, its status and its id.
pub proof fn lemma_rows_round_trip(items: Seq<WorkItemView>)
    requires
        forall|k: int| 0 <= k < items.len() ==> (#[trigger] items[k]).wf() && items[k].id is Some,
        forall|k: int, m: int|
            0 <= k < m < items.len() ==> (#[trigger] items[k]).id != (#[trigger] items[m]).id,
    ensures
        statuses_readable(all_header_rows(items)),
        events_readable(all_event_rows(items)),
        logs_restorable(all_header_rows(items), all_event_rows(items)),
        forall|i: int, item: WorkItemView|
            0 <= i < items.len() && #[trigger] restored(
                item,
                all_header_rows(items)[i],
                all_tag_rows(items),
                all_event_rows(items),
            ) ==> item == items[i],
{
    let headers = all_header_rows(items);
    let tags = all_tag_rows(items);
    let events = all_event_rows(items);
    lemma_all_event_rows_readable(items);
    assert forall|i: int| 0 <= i < headers.len() implies Status::of_token(
        #[trigger] headers[i].status,
    ) is Some by {
        crate::work_item::status::lemma_status_token_injective(items[i].status, items[i].status);
    }
    assert forall|i: int| 0 <= i < items.len() implies events_for(events, items[i].id->0)
        == items[i].events && chronological(items[i].events) == items[i].events && tags_for(
        tags,
        items[i].id->0,
    ) == items[i].tags by {
        assert forall|k: int| 0 <= k < items.len() && k != i implies (#[trigger] items[k]).id
            != items[i].id by {
            if k < i {
                assert(items[k].id != items[i].id);
            } else {
                assert(items[i].id != items[k].id);
            }
        }
        lemma_rows_for_item(items, i);
        assert(items[i].wf());
        assert forall|a: int, b: int| 0 <= a < b < items[i].events.len()
            implies items[i].events[a].timestamp
            <= items[i].events[b].timestamp by {
            crate::work_item::log::lemma_log_chronological(items[i].events, a, b);
        }
        crate::data_access::chronology::lemma_chronological_of_ascending(items[i].events);
    }
    assert forall|i: int| 0 <= i < headers.len() implies #[trigger] log_restorable(
        headers,
        events,
        i,
    ) by {
        assert(items[i].wf());
        assert(events_for(events, items[i].id->0) == items[i].events);
    }
    assert forall|i: int, item: WorkItemView|
        0 <= i < items.len() && #[trigger] restored(item, headers[i], tags, events) implies item
            == items[i] by {
        assert(items[i].wf());
        assert(events_for(events, items[i].id->0) == items[i].events);
        assert(tags_for(tags, items[i].id->0) == items[i].tags);
        crate::text::lemma_strictly_ascending_unique(item.tags, items[i].tags);
        assert(item.events =~= items[i].events);
    }
}

} // verus!
