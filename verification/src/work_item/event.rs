use crate::work_item::event_type::EventType;
use vstd::prelude::*;

verus! {

/// Event that may occur on a work item.
#[derive(Debug, Clone, Copy, PartialEq, Eq, Structural)]
pub struct Event {
    /// Type of the event.
    pub event_type: EventType,
    /// Timestamp this event occurred, in milliseconds since the epoch.
    pub timestamp: i64,
}

impl Event {
    /// Create a new event.
    pub fn new(event_type: EventType, timestamp: i64) -> (event: Event)
        ensures
            event.event_type == event_type,
            event.timestamp == timestamp,
    {
        Event { event_type, timestamp }
    }

    /// Get the events type.
    pub fn event_type(&self) -> (event_type: EventType)
        ensures
            event_type == self.event_type,
    {
        self.event_type
    }

    /// Get the events timestamp.
    pub fn timestamp(&self) -> (timestamp: i64)
        ensures
            timestamp == self.timestamp,
    {
        self.timestamp
    }

    /// Whether the event denotes a start of something or an end.
    pub fn is_start(&self) -> (start: bool)
        ensures
            start == self.event_type.is_start_like(),
    {
        match self.event_type {
            EventType::Started | EventType::Continued => true,
            _ => false,
        }
    }
}

} // verus!
