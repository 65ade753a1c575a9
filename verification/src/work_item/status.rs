use crate::text::str_eq;
use crate::work_item::event_type::EventType;
use vstd::prelude::*;

verus! {

/// Status of a work item.
#[derive(Debug, Clone, Copy, PartialEq, Eq, Structural)]
pub enum Status {
    Done,
    InProgress,
    Paused,
}

impl Status {
    /// The token under which the status is stored.
    pub open spec fn token(self) -> Seq<char> {
        match self {
            Status::Done => "DONE"@,
            Status::InProgress => "IN_PROGRESS"@,
            Status::Paused => "PAUSED"@,
        }
    }

    /// The status that a token stands for, if it stands for one.
    pub open spec fn of_token(token: Seq<char>) -> Option<Status> {
        if token == Status::Done.token() {
            Some(Status::Done)
        } else if token == Status::InProgress.token() {
            Some(Status::InProgress)
        } else if token == Status::Paused.token() {
            Some(Status::Paused)
        } else {
            None
        }
    }

    /// The status of an item whose latest event is of the given type.
    pub open spec fn after(event_type: EventType) -> Status {
        match event_type {
            EventType::Started => Status::InProgress,
            EventType::Continued => Status::InProgress,
            EventType::Paused => Status::Paused,
            EventType::Finished => Status::Done,
        }
    }

    /// The status of an item whose latest event is of the given type.
    pub fn of_latest(event_type: EventType) -> (status: Status)
        ensures
            status == Status::after(event_type),
    {
        match event_type {
            EventType::Started => Status::InProgress,
            EventType::Continued => Status::InProgress,
            EventType::Paused => Status::Paused,
            EventType::Finished => Status::Done,
        }
    }

    /// Reads a status from its token; any other text is refused.
    pub fn from_str(s: &str) -> (result: Result<Status, ()>)
        ensures
            match result {
                Ok(status) => s@ == status.token() && Status::of_token(s@) == Some(status),
                Err(_) => Status::of_token(s@) is None && forall|status: Status|
                    s@ != status.token(),
            },
    {
        if str_eq(s, "DONE") {
            Ok(Status::Done)
        } else if str_eq(s, "IN_PROGRESS") {
            Ok(Status::InProgress)
        } else if str_eq(s, "PAUSED") {
            Ok(Status::Paused)
        } else {
            Err(())
        }
    }

    /// The token under which the status is stored.
    pub fn to_string(&self) -> (token: String)
        ensures
            token@ == self.token(),
    {
        match self {
            Status::Done => "DONE".to_owned(),
            Status::InProgress => "IN_PROGRESS".to_owned(),
            Status::Paused => "PAUSED".to_owned(),
        }
    }
}

/// Different statuses are stored under different tokens, so a token reads back
/// as the status that wrote it.
pub proof fn lemma_status_token_injective(a: Status, b: Status)
    ensures
        a.token() == b.token() ==> a == b,
        Status::of_token(a.token()) == Some(a),
{
    reveal_strlit("DONE");
    reveal_strlit("IN_PROGRESS");
    reveal_strlit("PAUSED");
    assert("DONE"@[0] == 'D' && "IN_PROGRESS"@[0] == 'I' && "PAUSED"@[0] == 'P');
}

} // verus!
