use crate::text::strictly_ascending;
use crate::work_item::clock::get_current_timestamp;
use crate::work_item::status::Status;
use crate::work_item::tags::{copy_tags, insert_tag, normalize_tags, tag_texts};
use vstd::prelude::*;

verus! {

/// A work item with a counted duration: the time spent on it is kept as a
/// number, and a timer timestamp tells since when it is running.
#[derive(Debug)]
pub struct WorkItem {
    /// ID of the work item (only present when already stored in the database).
    id: Option<i32>,
    /// Description of the work item.
    description: String,
    /// Tags to further classify the work item, sorted alphabetically, each once.
    tags: Vec<String>,
    /// Time spent on the work item (in milliseconds).
    time_taken: i64,
    /// Status of the work item.
    status: Status,
    /// Timestamp of when the work item was entered into the system.
    timestamp: i64,
    /// Timestamp of the work items timer (if any).
    /// Used to measure the duration it took to complete a work item.
    timer_timestamp: Option<i64>,
}

/// What a work item with a counted duration holds, as mathematical values.
pub struct WorkItemView {
    pub id: Option<i32>,
    pub description: Seq<char>,
    /// The tags in alphabetical order.
    pub tags: Seq<Seq<char>>,
    pub time_taken: i64,
    pub status: Status,
    pub timestamp: i64,
    pub timer_timestamp: Option<i64>,
}

impl View for WorkItem {
    type V = WorkItemView;

    closed spec fn view(&self) -> WorkItemView {
        WorkItemView {
            id: self.id,
            description: self.description@,
            tags: tag_texts(self.tags@),
            time_taken: self.time_taken,
            status: self.status,
            timestamp: self.timestamp,
            timer_timestamp: self.timer_timestamp,
        }
    }
}

impl WorkItem {
    /// The tags are sorted, each once; every item that this module hands out is so.
    pub open spec fn wf(&self) -> bool {
        strictly_ascending(self@.tags)
    }

    /// Create a new work item that is entered now, without an id and without a
    /// running timer.
    pub fn new(description: String, tags: Vec<String>, time_taken: i64, status: Status) -> (item:
        WorkItem)
        ensures
            item.wf(),
            item@.id is None,
            item@.description == description@,
            item@.tags.to_set() == tag_texts(tags@).to_set(),
            item@.time_taken == time_taken,
            item@.status == status,
            item@.timestamp >= 0,
            item@.timer_timestamp is None,
    {
        WorkItem {
            id: None,
            description,
            tags: normalize_tags(tags),
            time_taken,
            status,
            timestamp: get_current_timestamp(),
            timer_timestamp: None,
        }
    }

    /// Create a work item from what is stored of it.
    pub fn new_internal(
        id: i32,
        description: String,
        tags: Vec<String>,
        time_taken: i64,
        status: Status,
        timestamp: i64,
        timer_timestamp: Option<i64>,
    ) -> (item: WorkItem)
        ensures
            item.wf(),
            item@.id == Some(id),
            item@.description == description@,
            item@.tags.to_set() == tag_texts(tags@).to_set(),
            item@.time_taken == time_taken,
            item@.status == status,
            item@.timestamp == timestamp,
            item@.timer_timestamp == timer_timestamp,
    {
        WorkItem {
            id: Some(id),
            description,
            tags: normalize_tags(tags),
            time_taken,
            status,
            timestamp,
            timer_timestamp,
        }
    }

    pub fn id(&self) -> (id: Option<i32>)
        ensures
            id == self@.id,
    {
        self.id
    }

    pub fn description(&self) -> (description: &String)
        ensures
            description@ == self@.description,
    {
        &self.description
    }

    /// Get a list of alphabetically sorted tags of the work item.
    pub fn tags(&self) -> (tags: Vec<String>)
        ensures
            tag_texts(tags@) == self@.tags,
    {
        copy_tags(&self.tags)
    }

    pub fn time_taken(&self) -> (time_taken: i64)
        ensures
            time_taken == self@.time_taken,
    {
        self.time_taken
    }

    pub fn set_time_taken(&mut self, time_in_ms: i64)
        ensures
            final(self)@ == (WorkItemView { time_taken: time_in_ms, ..old(self)@ }),
    {
        self.time_taken = time_in_ms;
    }

    pub fn timestamp(&self) -> (timestamp: i64)
        ensures
            timestamp == self@.timestamp,
    {
        self.timestamp
    }

    pub fn status(&self) -> (status: &Status)
        ensures
            *status == self@.status,
    {
        &self.status
    }

    pub fn set_status(&mut self, status: Status)
        ensures
            final(self)@ == (WorkItemView { status, ..old(self)@ }),
    {
        self.status = status;
    }

    pub fn timer_timestamp(&self) -> (timer_timestamp: Option<i64>)
        ensures
            timer_timestamp == self@.timer_timestamp,
    {
        self.timer_timestamp
    }

    pub fn set_timer_timestamp(&mut self, timestamp: Option<i64>)
        ensures
            final(self)@ == (WorkItemView { timer_timestamp: timestamp, ..old(self)@ }),
    {
        self.timer_timestamp = timestamp;
    }

    /// Push a tag describing the work item; a tag that it has already is not
    /// added again.
    pub fn push_tag(&mut self, tag: String)
        requires
            old(self).wf(),
        ensures
            final(self).wf(),
            final(self)@.tags.to_set() == old(self)@.tags.to_set().insert(tag@),
            final(self)@ == (WorkItemView { tags: final(self)@.tags, ..old(self)@ }),
    {
        insert_tag(&mut self.tags, tag);
    }
}

} // verus!
