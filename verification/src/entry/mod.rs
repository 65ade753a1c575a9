//! Entries with a counted duration: work that is logged with the time it
//! took, without the events of a lifecycle.

pub mod log_entry;
pub mod work_item;

pub use log_entry::LogEntry;
