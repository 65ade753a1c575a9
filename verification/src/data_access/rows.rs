//! The three relations in which work items are stored, and what they hold
//! of one item.

use crate::work_item::event::Event;
use crate::work_item::event_type::EventType;
use crate::work_item::status::Status;
use vstd::prelude::*;

verus! {

/// A row of the relation `logs`: the header of one work item.
#[derive(Debug, PartialEq, Eq)]
pub struct LogRow {
    pub id: i32,
    pub description: String,
    /// Token of the status. It is a copy of what the events say, kept for
    /// queries on the relation; the events are what counts.
    pub status: String,
}

/// A row of the relation `log_tags`: one tag of one work item.
#[derive(Debug, PartialEq, Eq)]
pub struct TagRow {
    pub log_id: i32,
    pub tag: String,
}

/// A row of the relation `log_events`: one event of one work item.
#[derive(Debug, PartialEq, Eq)]
pub struct EventRow {
    pub log_id: i32,
    pub timestamp: i64,
    /// Token of the event type.
    pub event: String,
}

/// A header row as mathematical values.
pub struct LogRowView {
    pub id: i32,
    pub description: Seq<char>,
    pub status: Seq<char>,
}

/// A tag row as mathematical values.
pub struct TagRowView {
    pub log_id: i32,
    pub tag: Seq<char>,
}

/// An event row as mathematical values.
pub struct EventRowView {
    pub log_id: i32,
    pub timestamp: i64,
    pub event: Seq<char>,
}

impl View for LogRow {
    type V = LogRowView;

    open spec fn view(&self) -> LogRowView {
        LogRowView { id: self.id, description: self.description@, status: self.status@ }
    }
}

impl View for TagRow {
    type V = TagRowView;

    open spec fn view(&self) -> TagRowView {
        TagRowView { log_id: self.log_id, tag: self.tag@ }
    }
}

impl View for EventRow {
    type V = EventRowView;

    open spec fn view(&self) -> EventRowView {
        EventRowView { log_id: self.log_id, timestamp: self.timestamp, event: self.event@ }
    }
}

/// The header rows as mathematical values.
pub open spec fn log_rows(rows: Seq<LogRow>) -> Seq<LogRowView> {
    Seq::new(rows.len(), |i: int| rows[i]@)
}

/// The tag rows as mathematical values.
pub open spec fn tag_rows(rows: Seq<TagRow>) -> Seq<TagRowView> {
    Seq::new(rows.len(), |i: int| rows[i]@)
}

/// The event rows as mathematical values.
pub open spec fn event_rows(rows: Seq<EventRow>) -> Seq<EventRowView> {
    Seq::new(rows.len(), |i: int| rows[i]@)
}

/// Every header row holds the token of a status.
pub open spec fn statuses_readable(rows: Seq<LogRowView>) -> bool {
    forall|i: int| 0 <= i < rows.len() ==> Status::of_token(#[trigger] rows[i].status) is Some
}

/// Every event row holds the token of an event type.
pub open spec fn events_readable(rows: Seq<EventRowView>) -> bool {
    forall|i: int| 0 <= i < rows.len() ==> EventType::of_token(#[trigger] rows[i].event) is Some
}

/// The tags that the rows give to the item `id`, in the order of the rows.
pub open spec fn tags_for(rows: Seq<TagRowView>, id: i32) -> Seq<Seq<char>>
    decreases rows.len(),
{
    if rows.len() == 0 {
        Seq::empty()
    } else if rows.last().log_id == id {
        tags_for(rows.drop_last(), id).push(rows.last().tag)
    } else {
        tags_for(rows.drop_last(), id)
    }
}

/// The events that the rows give to the item `id`, in the order of the rows.
/// A row whose token stands for no event type gives none.
pub open spec fn events_for(rows: Seq<EventRowView>, id: i32) -> Seq<Event>
    decreases rows.len(),
{
    if rows.len() == 0 {
        Seq::empty()
    } else if rows.last().log_id == id && EventType::of_token(rows.last().event) is Some {
        events_for(rows.drop_last(), id).push(
            Event {
                event_type: EventType::of_token(rows.last().event)->0,
                timestamp: rows.last().timestamp,
            },
        )
    } else {
        events_for(rows.drop_last(), id)
    }
}

/// The tags of an item come from the rows one after the other.
pub proof fn lemma_tags_for_concat(a: Seq<TagRowView>, b: Seq<TagRowView>, id: i32)
    ensures
        tags_for(a + b, id) == tags_for(a, id) + tags_for(b, id),
    decreases b.len(),
{
    if b.len() == 0 {
        assert(a + b =~= a);
        assert(tags_for(a, id) + tags_for(b, id) =~= tags_for(a, id));
    } else {
        lemma_tags_for_concat(a, b.drop_last(), id);
        assert((a + b).drop_last() =~= a + b.drop_last());
        assert(tags_for(a + b, id) =~= tags_for(a, id) + tags_for(b, id));
    }
}

/// The events of an item come from the rows one after the other.
pub proof fn lemma_events_for_concat(a: Seq<EventRowView>, b: Seq<EventRowView>, id: i32)
    ensures
        events_for(a + b, id) == events_for(a, id) + events_for(b, id),
    decreases b.len(),
{
    if b.len() == 0 {
        assert(a + b =~= a);
        assert(events_for(a, id) + events_for(b, id) =~= events_for(a, id));
    } else {
        lemma_events_for_concat(a, b.drop_last(), id);
        assert((a + b).drop_last() =~= a + b.drop_last());
        assert(events_for(a + b, id) =~= events_for(a, id) + events_for(b, id));
    }
}

} // verus!
