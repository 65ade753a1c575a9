//! The work item aggregate: its events, its status and its lifecycle.

pub mod clock;
pub mod event;
pub mod event_type;
pub mod laws;
pub mod log;
pub mod status;
pub mod tags;
pub mod work_item;

pub use event::Event;
pub use event_type::EventType;
pub use status::Status;
pub use work_item::WorkItem;
