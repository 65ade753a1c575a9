use crate::text::str_eq;
use vstd::prelude::*;

verus! {

/// Type of event that may occur on a work item.
#[derive(Debug, Clone, Copy, PartialEq, Eq, Structural)]
pub enum EventType {
    /// The work item has been started.
    Started,
    /// The work item has been paused.
    Paused,
    /// Work on the work item has continued.
    Continued,
    /// Work on the work item has finished.
    Finished,
}

impl EventType {
    /// The token under which the event type is stored.
    pub open spec fn token(self) -> Seq<char> {
        match self {
            EventType::Started => "STARTED"@,
            EventType::Paused => "PAUSED"@,
            EventType::Continued => "CONTINUED"@,
            EventType::Finished => "FINISHED"@,
        }
    }

    /// The event type that a token stands for, if it stands for one.
    pub open spec fn of_token(token: Seq<char>) -> Option<EventType> {
        if token == EventType::Started.token() {
            Some(EventType::Started)
        } else if token == EventType::Paused.token() {
            Some(EventType::Paused)
        } else if token == EventType::Continued.token() {
            Some(EventType::Continued)
        } else if token == EventType::Finished.token() {
            Some(EventType::Finished)
        } else {
            None
        }
    }

    /// Whether the event opens an active interval (otherwise it closes one).
    pub open spec fn is_start_like(self) -> bool {
        self == EventType::Started || self == EventType::Continued
    }

    /// Reads an event type from its token; any other text is refused.
    pub fn from_str(s: &str) -> (result: Result<EventType, ()>)
        ensures
            match result {
                Ok(event_type) => s@ == event_type.token() && EventType::of_token(s@) == Some(
                    event_type,
                ),
                Err(_) => EventType::of_token(s@) is None && forall|event_type: EventType|
                    s@ != event_type.token(),
            },
    {
        if str_eq(s, "STARTED") {
            Ok(EventType::Started)
        } else if str_eq(s, "PAUSED") {
            Ok(EventType::Paused)
        } else if str_eq(s, "CONTINUED") {
            Ok(EventType::Continued)
        } else if str_eq(s, "FINISHED") {
            Ok(EventType::Finished)
        } else {
            Err(())
        }
    }

    /// The token under which the event type is stored.
    pub fn to_string(&self) -> (token: String)
        ensures
            token@ == self.token(),
    {
        match self {
            EventType::Started => "STARTED".to_owned(),
            EventType::Paused => "PAUSED".to_owned(),
            EventType::Continued => "CONTINUED".to_owned(),
            EventType::Finished => "FINISHED".to_owned(),
        }
    }
}

/// Different event types are stored under different tokens, so a token reads
/// back as the event type that wrote it.
pub proof fn lemma_event_type_token_injective(a: EventType, b: EventType)
    ensures
        a.token() == b.token() ==> a == b,
        EventType::of_token(a.token()) == Some(a),
{
    reveal_strlit("STARTED");
    reveal_strlit("PAUSED");
    reveal_strlit("CONTINUED");
    reveal_strlit("FINISHED");
    assert("STARTED"@[0] == 'S' && "PAUSED"@[0] == 'P' && "CONTINUED"@[0] == 'C' && "FINISHED"@[0]
        == 'F');
}

} // verus!
