use vstd::prelude::*;

verus! {

/// Why the store refuses an operation or cannot read what is stored.
#[derive(Debug, Clone, Copy, PartialEq, Eq, Structural)]
pub enum StoreError {
    /// A stored status is none of `DONE`, `IN_PROGRESS`, `PAUSED`.
    UnreadableStatus,
    /// A stored event type is none of `STARTED`, `PAUSED`, `CONTINUED`, `FINISHED`.
    UnreadableEvent,
    /// The stored events of an item are not a log that the lifecycle can
    /// produce; an item without any stored event is such a case.
    MalformedLog,
    /// The stored items do not come with strictly ascending ids.
    DisorderedIds,
    /// No id is left for a new item.
    NoFreeId,
    /// An item that is to be updated has no id yet.
    MissingId,
    /// An item that is to be updated is not in the store.
    UnknownItem,
}

impl StoreError {
    /// The error in words.
    pub fn message(&self) -> (message: &'static str)
        ensures
            message@ == self.text(),
    {
        match self {
            StoreError::UnreadableStatus => "could not interpret a stored status",
            StoreError::UnreadableEvent => "could not interpret a stored event type",
            StoreError::MalformedLog => "the stored events of a work item form no valid log",
            StoreError::DisorderedIds => "the stored work items are not in the order of their ids",
            StoreError::NoFreeId => "no id is left for a new work item",
            StoreError::MissingId => "a work item to update has no id",
            StoreError::UnknownItem => "a work item to update is not stored",
        }
    }

    /// The error in words.
    pub open spec fn text(self) -> Seq<char> {
        match self {
            StoreError::UnreadableStatus => "could not interpret a stored status"@,
            StoreError::UnreadableEvent => "could not interpret a stored event type"@,
            StoreError::MalformedLog => "the stored events of a work item form no valid log"@,
            StoreError::DisorderedIds => "the stored work items are not in the order of their ids"@,
            StoreError::NoFreeId => "no id is left for a new work item"@,
            StoreError::MissingId => "a work item to update has no id"@,
            StoreError::UnknownItem => "a work item to update is not stored"@,
        }
    }
}

} // verus!
