use crate::text::strictly_ascending;
use crate::work_item::clock::get_current_timestamp;
use crate::work_item::tags::{copy_tags, insert_tag, normalize_tags, tag_texts};
use vstd::prelude::*;

verus! {

/// An entry of the work log: work that was done, and how long it took.
#[derive(Debug)]
pub struct LogEntry {
    /// Description of the work log entry.
    description: String,
    /// Tags to further classify the log entry, sorted alphabetically, each once.
    tags: Vec<String>,
    /// Time spent on the task (in seconds).
    time_taken: i32,
    /// Timestamp of when the task was entered into the system.
    timestamp: i64,
}

/// What a log entry holds, as mathematical values.
pub struct LogEntryView {
    pub description: Seq<char>,
    /// The tags in alphabetical order.
    pub tags: Seq<Seq<char>>,
    pub time_taken: i32,
    pub timestamp: i64,
}

impl View for LogEntry {
    type V = LogEntryView;

    closed spec fn view(&self) -> LogEntryView {
        LogEntryView {
            description: self.description@,
            tags: tag_texts(self.tags@),
            time_taken: self.time_taken,
            timestamp: self.timestamp,
        }
    }
}

impl LogEntry {
    /// The tags are sorted, each once; every entry that this module hands out is so.
    pub open spec fn wf(&self) -> bool {
        strictly_ascending(self@.tags)
    }

    /// Create a new log entry that is entered now.
    pub fn new(description: String, tags: Vec<String>, time_taken: i32) -> (entry: LogEntry)
        ensures
            entry.wf(),
            entry@.description == description@,
            entry@.tags.to_set() == tag_texts(tags@).to_set(),
            entry@.time_taken == time_taken,
            entry@.timestamp >= 0,
    {
        LogEntry::new_internal(description, tags, time_taken, get_current_timestamp())
    }

    /// Create a new log entry that was entered at the given instant.
    pub fn new_internal(
        description: String,
        tags: Vec<String>,
        time_taken: i32,
        timestamp: i64,
    ) -> (entry: LogEntry)
        ensures
            entry.wf(),
            entry@.description == description@,
            entry@.tags.to_set() == tag_texts(tags@).to_set(),
            entry@.time_taken == time_taken,
            entry@.timestamp == timestamp,
    {
        LogEntry { description, tags: normalize_tags(tags), time_taken, timestamp }
    }

    pub fn description(&self) -> (description: &String)
        ensures
            description@ == self@.description,
    {
        &self.description
    }

    /// Get a list of alphabetically sorted tags of the entry.
    pub fn tags(&self) -> (tags: Vec<String>)
        ensures
            tag_texts(tags@) == self@.tags,
    {
        copy_tags(&self.tags)
    }

    pub fn time_taken(&self) -> (time_taken: i32)
        ensures
            time_taken == self@.time_taken,
    {
        self.time_taken
    }

    pub fn timestamp(&self) -> (timestamp: i64)
        ensures
            timestamp == self@.timestamp,
    {
        self.timestamp
    }

    /// Push a tag describing the entry; a tag that it has already is not added again.
    pub fn push_tag(&mut self, tag: String)
        requires
            old(self).wf(),
        ensures
            final(self).wf(),
            final(self)@.tags.to_set() == old(self)@.tags.to_set().insert(tag@),
            final(self)@ == (LogEntryView { tags: final(self)@.tags, ..old(self)@ }),
    {
        insert_tag(&mut self.tags, tag);
    }
}

} // verus!
