use crate::text::strictly_ascending;
use crate::work_item::clock::get_current_timestamp;
use crate::work_item::event::Event;
use crate::work_item::event_type::EventType;
use crate::work_item::log::{
    allowed_after, closed_time, is_well_formed_log, lemma_closed_time_bounds, lemma_log_append,
    lemma_log_chronological, lemma_log_prefix, time_taken_at, well_formed_log,
};
use crate::work_item::status::Status;
use crate::work_item::tags::{copy_tags, insert_tag, normalize_tags, tag_texts};
use vstd::prelude::*;

verus! {

/// A trackable unit of work: what it is about, how it is classified, and the
/// events of its lifecycle, from which its status and its duration derive.
#[derive(Debug)]
pub struct WorkItem {
    /// ID of the work item (only present when already stored in the database).
    id: Option<i32>,
    /// Description of the work item.
    description: String,
    /// Tags to further classify the work item, sorted alphabetically, each once.
    tags: Vec<String>,
    /// Status of the work item; always the one that the latest event gives.
    status: Status,
    /// Events the work item was undergoing in its lifetime, sorted by their timestamp.
    events: Vec<Event>,
}

/// What a work item holds, as mathematical values.
pub struct WorkItemView {
    pub id: Option<i32>,
    pub description: Seq<char>,
    /// The tags in alphabetical order.
    pub tags: Seq<Seq<char>>,
    pub status: Status,
    pub events: Seq<Event>,
}

impl WorkItemView {
    /// The log is one that the lifecycle produces, the status is the one that
    /// its latest event gives, and the tags are sorted without repetition.
    pub open spec fn wf(self) -> bool {
        &&& well_formed_log(self.events)
        &&& self.status == Status::after(self.events.last().event_type)
        &&& strictly_ascending(self.tags)
    }

    /// The set of tags, whatever their order.
    pub open spec fn tag_set(self) -> Set<Seq<char>> {
        self.tags.to_set()
    }

    /// Timestamp of the latest event.
    pub open spec fn last_timestamp(self) -> int {
        self.events.last().timestamp as int
    }

    /// The item after one more event: the event is appended, and the status follows it.
    pub open spec fn appended(self, event_type: EventType, timestamp: i64) -> WorkItemView {
        WorkItemView {
            status: Status::after(event_type),
            events: self.events.push(Event { event_type, timestamp }),
            ..self
        }
    }

    /// The item with another log; the status follows the latest event of it.
    pub open spec fn with_events(self, events: Seq<Event>) -> WorkItemView {
        WorkItemView { status: Status::after(events.last().event_type), events, ..self }
    }

    /// Active time of the item as seen at instant `now`.
    pub open spec fn time_taken_at(self, now: int) -> int {
        time_taken_at(self.events, now)
    }
}

/// Why a work item that is not in progress cannot be paused.
pub open spec fn cannot_pause_message() -> Seq<char> {
    "cannot pause: not in progress"@
}

/// Why a work item that is not paused cannot be continued.
pub open spec fn cannot_continue_message() -> Seq<char> {
    "cannot continue: not paused"@
}

/// Why a finished work item cannot be finished again.
pub open spec fn cannot_finish_message() -> Seq<char> {
    "cannot finish: already finished"@
}

/// Why an event cannot be appended at an instant before the latest event.
pub open spec fn not_chronological_message() -> Seq<char> {
    "cannot append event: timestamp lies before the latest event"@
}

/// Why a sequence of events is refused as the log of a work item.
pub open spec fn malformed_log_message() -> Seq<char> {
    "malformed event log"@
}

impl View for WorkItem {
    type V = WorkItemView;

    closed spec fn view(&self) -> WorkItemView {
        WorkItemView {
            id: self.id,
            description: self.description@,
            tags: tag_texts(self.tags@),
            status: self.status,
            events: self.events@,
        }
    }
}

impl WorkItem {
    /// Well-formedness of the item; every item that this module hands out has it.
    pub open spec fn wf(&self) -> bool {
        self@.wf()
    }

    /// Create a new work item that is started now. It is in progress whatever
    /// status is asked for: a single `Started` event gives no other.
    pub fn new(description: String, _status: Status, tags: Vec<String>) -> (item: WorkItem)
        ensures
            item.wf(),
            item@.id is None,
            item@.description == description@,
            item@.tag_set() == tag_texts(tags@).to_set(),
            item@.status == Status::InProgress,
            item@.events.len() == 1,
            item@.events[0].event_type == EventType::Started,
            item@.events[0].timestamp >= 0,
    {
        WorkItem::new_at(description, tags, get_current_timestamp())
    }

    /// Create a new work item that is started at the given instant, which must
    /// not lie before the epoch.
    pub fn new_at(description: String, tags: Vec<String>, now: i64) -> (item: WorkItem)
        requires
            now >= 0,
        ensures
            item.wf(),
            item@.id is None,
            item@.description == description@,
            item@.tag_set() == tag_texts(tags@).to_set(),
            item@.status == Status::InProgress,
            item@.events == seq![Event { event_type: EventType::Started, timestamp: now }],
    {
        let mut events: Vec<Event> = Vec::new();
        events.push(Event::new(EventType::Started, now));
        proof {
            assert(events@ =~= seq![Event { event_type: EventType::Started, timestamp: now }]);
        }
        WorkItem {
            id: None,
            description,
            tags: normalize_tags(tags),
            status: Status::InProgress,
            events,
        }
    }

    /// Create a work item from what is stored of it. The events must form a
    /// log that the lifecycle can produce, else the item is refused. The
    /// status is derived from the log; the stored one is not consulted.
    pub fn new_internal(
        id: i32,
        description: String,
        _status: Status,
        tags: Vec<String>,
        events: Vec<Event>,
    ) -> (result: Result<WorkItem, &'static str>)
        ensures
            result is Ok <==> well_formed_log(events@),
            result matches Ok(item) ==> {
                &&& item.wf()
                &&& item@.id == Some(id)
                &&& item@.description == description@
                &&& item@.tag_set() == tag_texts(tags@).to_set()
                &&& item@.events == events@
            },
            result matches Err(message) ==> message@ == malformed_log_message(),
    {
        if !is_well_formed_log(&events) {
            return Err("malformed event log");
        }
        let latest: EventType = events[events.len() - 1].event_type;
        Ok(
            WorkItem {
                id: Some(id),
                description,
                tags: normalize_tags(tags),
                status: Status::of_latest(latest),
                events,
            },
        )
    }

    /// The same item under the id that the store has given it.
    pub(crate) fn stored_as(self, id: i32) -> (item: WorkItem)
        ensures
            item@ == (WorkItemView { id: Some(id), ..self@ }),
    {
        WorkItem {
            id: Some(id),
            description: self.description,
            tags: self.tags,
            status: self.status,
            events: self.events,
        }
    }

    /// A copy of the item.
    pub fn duplicate(&self) -> (item: WorkItem)
        ensures
            item@ == self@,
    {
        let mut events: Vec<Event> = Vec::new();
        let mut i: usize = 0;
        while i < self.events.len()
            invariant
                i <= self.events@.len(),
                events@ == self.events@.take(i as int),
            decreases self.events@.len() - i,
        {
            events.push(self.events[i]);
            proof {
                assert(self.events@.take(i + 1) =~= self.events@.take(i as int).push(
                    self.events@[i as int],
                ));
            }
            i = i + 1;
        }
        proof {
            assert(self.events@.take(self.events@.len() as int) =~= self.events@);
        }
        WorkItem {
            id: self.id,
            description: self.description.clone(),
            tags: copy_tags(&self.tags),
            status: self.status,
            events,
        }
    }

    /// Get the work items ID.
    pub fn id(&self) -> (id: Option<i32>)
        ensures
            id == self@.id,
    {
        self.id
    }

    /// Get the work items description.
    pub fn description(&self) -> (description: &String)
        ensures
            description@ == self@.description,
    {
        &self.description
    }

    /// Set the work items description.
    pub fn set_description(&mut self, description: String)
        ensures
            final(self)@ == (WorkItemView { description: description@, ..old(self)@ }),
            final(self).wf() == old(self).wf(),
    {
        self.description = description;
    }

    /// Get a list of alphabetically sorted tags for the work item.
    pub fn tags(&self) -> (tags: Vec<String>)
        ensures
            tag_texts(tags@) == self@.tags,
            self.wf() ==> strictly_ascending(tag_texts(tags@)),
    {
        copy_tags(&self.tags)
    }

    /// Set the tags describing the work item.
    pub fn set_tags(&mut self, tags: Vec<String>)
        ensures
            strictly_ascending(final(self)@.tags),
            final(self)@.tag_set() == tag_texts(tags@).to_set(),
            final(self)@ == (WorkItemView { tags: final(self)@.tags, ..old(self)@ }),
            old(self).wf() ==> final(self).wf(),
    {
        self.tags = normalize_tags(tags);
    }

    /// Push a tag describing the work item.
    /// This will be added to the already existing tags and not override them.
    pub fn push_tag(&mut self, tag: String)
        requires
            old(self).wf(),
        ensures
            final(self).wf(),
            final(self)@.tag_set() == old(self)@.tag_set().insert(tag@),
            old(self)@.tag_set().contains(tag@) ==> final(self)@ == old(self)@,
            final(self)@ == (WorkItemView { tags: final(self)@.tags, ..old(self)@ }),
    {
        insert_tag(&mut self.tags, tag);
    }

    /// Get the time the user has been working on the work item (in
    /// milliseconds), as seen now. An interval that is still open counts up
    /// to now, and counts nothing while the clock reads earlier than its start.
    pub fn time_taken(&self) -> (time_taken: i64)
        requires
            self.wf(),
        ensures
            exists|now: i64| now >= 0 && time_taken == #[trigger] self@.time_taken_at(now as int),
            time_taken >= closed_time(self@.events),
            time_taken >= 0,
            self@.status != Status::InProgress ==> time_taken == closed_time(self@.events),
    {
        self.time_taken_at(get_current_timestamp())
    }

    /// Get the time the user has been working on the work item (in
    /// milliseconds), as seen at instant `now`: the sum of the closed active
    /// intervals and, while the item is in progress, the time from its latest
    /// event to `now`.
    pub fn time_taken_at(&self, now: i64) -> (time_taken: i64)
        requires
            self.wf(),
        ensures
            time_taken == self@.time_taken_at(now as int),
            time_taken >= 0,
    {
        let mut time_taken: i64 = 0;

        let mut cur_start_timestamp: Option<i64> = None;
        let mut i: usize = 0;
        proof {
            assert(closed_time(self.events@.take(0)) == 0);
        }
        while i < self.events.len()
            invariant
                self.wf(),
                i <= self.events@.len(),
                time_taken == closed_time(self.events@.take(i as int)),
                i == 0 ==> cur_start_timestamp is None,
                i > 0 ==> 0 <= time_taken <= self.events@[i - 1].timestamp
                    - self.events@[0].timestamp,
                i > 0 ==> cur_start_timestamp == if self.events@[i - 1].event_type.is_start_like() {
                    Some(self.events@[i - 1].timestamp)
                } else {
                    None::<i64>
                },
            decreases self.events@.len() - i,
        {
            let event: Event = self.events[i];
            proof {
                let prefix = self.events@.take(i + 1);
                lemma_log_prefix(self.events@, i + 1);
                lemma_closed_time_bounds(prefix);
                assert(prefix.drop_last() =~= self.events@.take(i as int));
                if i > 0 {
                    assert(crate::work_item::log::follows(self.events@, i - 1));
                }
            }
            match event.event_type() {
                EventType::Started | EventType::Continued => {
                    cur_start_timestamp = Some(event.timestamp())
                },
                EventType::Paused | EventType::Finished => {
                    // When work item has been finished after paused,
                    // there is no cur_start_timestamp.
                    if let Some(start) = cur_start_timestamp {
                        let end: i64 = event.timestamp();

                        time_taken = time_taken + (end - start);
                        cur_start_timestamp = None;
                    }
                },
            }
            i = i + 1;
        }
        proof {
            assert(self.events@.take(self.events@.len() as int) =~= self.events@);
            lemma_log_chronological(self.events@, 0, self.events@.len() - 1);
        }

        // Check whether item is currently in progress and calculate time taken to now!
        if self.status == Status::InProgress {
            let latest: i64 = self.events[self.events.len() - 1].timestamp();
            if latest < now {
                time_taken = time_taken + (now - latest);
            }
        }

        time_taken
    }

    /// Get the timestamp the item was created: that of its `Started` event.
    pub fn created_timestamp(&self) -> (timestamp: i64)
        requires
            self.wf(),
        ensures
            timestamp == self@.events[0].timestamp,
            self@.events[0].event_type == EventType::Started,
            timestamp >= 0,
    {
        self.events[0].timestamp()
    }

    /// Get the timestamp of the latest event of the item.
    pub fn last_timestamp(&self) -> (timestamp: i64)
        requires
            self.wf(),
        ensures
            timestamp == self@.last_timestamp(),
            timestamp >= 0,
    {
        proof {
            lemma_log_chronological(self.events@, 0, self.events@.len() - 1);
        }
        self.events[self.events.len() - 1].timestamp()
    }

    /// Get the current status of the work item.
    pub fn status(&self) -> (status: Status)
        ensures
            status == self@.status,
    {
        self.status
    }

    /// Get all events the work item was undergoing to this moment sorted by the
    /// events timestamp.
    pub fn events(&self) -> (events: &[Event])
        ensures
            events@ == self@.events,
    {
        self.events.as_slice()
    }

    /// Set the events of the item. They must form a log that the lifecycle
    /// can produce, else the item stays as it is. The status follows the
    /// latest of the new events.
    pub fn set_events(&mut self, events: Vec<Event>) -> (result: Result<(), &'static str>)
        requires
            old(self).wf(),
        ensures
            final(self).wf(),
            result is Ok <==> well_formed_log(events@),
            result is Ok ==> final(self)@ == old(self)@.with_events(events@),
            result matches Err(message) ==> final(self)@ == old(self)@ && message@
                == malformed_log_message(),
    {
        if !is_well_formed_log(&events) {
            return Err("malformed event log");
        }
        self.status = Status::of_latest(events[events.len() - 1].event_type);
        self.events = events;
        Ok(())
    }

    /// Appends an event that was found to be allowed.
    fn append(&mut self, event_type: EventType, timestamp: i64)
        requires
            old(self).wf(),
            allowed_after(old(self)@.events.last().event_type, event_type),
            old(self)@.last_timestamp() <= timestamp,
        ensures
            final(self).wf(),
            final(self)@ == old(self)@.appended(event_type, timestamp),
    {
        proof {
            lemma_log_append(self.events@, Event { event_type, timestamp });
        }
        self.status = Status::of_latest(event_type);
        self.events.push(Event::new(event_type, timestamp));
    }

    /// Pause working on the work item, now.
    /// Will result in an error if the work item is in an invalid state, or if
    /// the clock reads earlier than the latest event.
    pub fn pause_working(&mut self) -> (result: Result<(), &'static str>)
        requires
            old(self).wf(),
        ensures
            final(self).wf(),
            old(self)@.status != Status::InProgress ==> result is Err,
            result is Ok ==> exists|now: i64|
                old(self)@.last_timestamp() <= now && final(self)@ == #[trigger] old(
                    self,
                )@.appended(EventType::Paused, now),
            result matches Err(message) ==> final(self)@ == old(self)@ && message@ == if old(
                self,
            )@.status != Status::InProgress {
                cannot_pause_message()
            } else {
                not_chronological_message()
            },
    {
        let now: i64 = get_current_timestamp();
        self.pause_working_at(now)
    }

    /// Pause working on the work item at the given instant.
    /// Succeeds exactly if the item is in progress and the instant does not lie
    /// before its latest event; otherwise the item stays as it is.
    pub fn pause_working_at(&mut self, now: i64) -> (result: Result<(), &'static str>)
        requires
            old(self).wf(),
        ensures
            final(self).wf(),
            result is Ok <==> old(self)@.status == Status::InProgress && old(self)@.last_timestamp()
                <= now,
            result is Ok ==> final(self)@ == old(self)@.appended(EventType::Paused, now),
            result matches Err(message) ==> final(self)@ == old(self)@ && message@ == if old(
                self,
            )@.status != Status::InProgress {
                cannot_pause_message()
            } else {
                not_chronological_message()
            },
    {
        if self.status == Status::InProgress {
            if self.last_timestamp() > now {
                return Err("cannot append event: timestamp lies before the latest event");
            }
            self.append(EventType::Paused, now);

            Ok(())
        } else {
            Err("cannot pause: not in progress")
        }
    }

    /// Continue working on the work item, now.
    /// Will result in an error if the work item is in an invalid state, or if
    /// the clock reads earlier than the latest event.
    pub fn continue_working(&mut self) -> (result: Result<(), &'static str>)
        requires
            old(self).wf(),
        ensures
            final(self).wf(),
            old(self)@.status != Status::Paused ==> result is Err,
            result is Ok ==> exists|now: i64|
                old(self)@.last_timestamp() <= now && final(self)@ == #[trigger] old(
                    self,
                )@.appended(EventType::Continued, now),
            result matches Err(message) ==> final(self)@ == old(self)@ && message@ == if old(
                self,
            )@.status != Status::Paused {
                cannot_continue_message()
            } else {
                not_chronological_message()
            },
    {
        let now: i64 = get_current_timestamp();
        self.continue_working_at(now)
    }

    /// Continue working on the work item at the given instant.
    /// Succeeds exactly if the item is paused and the instant does not lie
    /// before its latest event; otherwise the item stays as it is.
    pub fn continue_working_at(&mut self, now: i64) -> (result: Result<(), &'static str>)
        requires
            old(self).wf(),
        ensures
            final(self).wf(),
            result is Ok <==> old(self)@.status == Status::Paused && old(self)@.last_timestamp()
                <= now,
            result is Ok ==> final(self)@ == old(self)@.appended(EventType::Continued, now),
            result matches Err(message) ==> final(self)@ == old(self)@ && message@ == if old(
                self,
            )@.status != Status::Paused {
                cannot_continue_message()
            } else {
                not_chronological_message()
            },
    {
        if self.status == Status::Paused {
            if self.last_timestamp() > now {
                return Err("cannot append event: timestamp lies before the latest event");
            }
            self.append(EventType::Continued, now);

            Ok(())
        } else {
            Err("cannot continue: not paused")
        }
    }

    /// Finish working on the work item, at the given instant or else now.
    /// Will result in an error if the work item is in an invalid state, or if
    /// the instant lies before the latest event.
    pub fn finish_working(&mut self, timestamp: Option<i64>) -> (result: Result<(), &'static str>)
        requires
            old(self).wf(),
        ensures
            final(self).wf(),
            old(self)@.status == Status::Done ==> result is Err,
            timestamp matches Some(at) ==> (result is Ok <==> old(self)@.status != Status::Done
                && old(self)@.last_timestamp() <= at),
            timestamp matches Some(at) ==> (result is Ok ==> final(self)@ == old(self)@.appended(
                EventType::Finished,
                at,
            )),
            result is Ok ==> exists|at: i64|
                old(self)@.last_timestamp() <= at && final(self)@ == #[trigger] old(self)@.appended(
                    EventType::Finished,
                    at,
                ),
            result matches Err(message) ==> final(self)@ == old(self)@ && message@ == if old(
                self,
            )@.status == Status::Done {
                cannot_finish_message()
            } else {
                not_chronological_message()
            },
    {
        let at: i64 = match timestamp {
            Some(at) => at,
            None => get_current_timestamp(),
        };
        self.finish_working_at(at)
    }

    /// Finish working on the work item at the given instant. One `Finished`
    /// event is appended, also where the item was in progress: no `Paused`
    /// event is put before it.
    /// Succeeds exactly if the item is not finished yet and the instant does
    /// not lie before its latest event; otherwise the item stays as it is.
    pub fn finish_working_at(&mut self, at: i64) -> (result: Result<(), &'static str>)
        requires
            old(self).wf(),
        ensures
            final(self).wf(),
            result is Ok <==> old(self)@.status != Status::Done && old(self)@.last_timestamp()
                <= at,
            result is Ok ==> final(self)@ == old(self)@.appended(EventType::Finished, at),
            result matches Err(message) ==> final(self)@ == old(self)@ && message@ == if old(
                self,
            )@.status == Status::Done {
                cannot_finish_message()
            } else {
                not_chronological_message()
            },
    {
        match self.status {
            Status::InProgress | Status::Paused => {
                if self.last_timestamp() > at {
                    return Err("cannot append event: timestamp lies before the latest event");
                }
                self.append(EventType::Finished, at);

                Ok(())
            },
            Status::Done => Err("cannot finish: already finished"),
        }
    }
}

} // verus!
