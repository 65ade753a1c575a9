//! The store of work items and its relational shape: item headers, tags and events.

pub mod chronology;
pub mod data_access;
pub mod error;
pub mod laws;
pub mod patch;
pub mod query;
pub mod reconstruct;
pub mod rows;
pub mod store;

pub use data_access::DataAccess;
pub use error::StoreError;
pub use rows::{EventRow, LogRow, TagRow};
pub use reconstruct::create_work_items;
pub use store::Store;
pub use query::{
    clear, delete_item, find_item_by_id, find_items_by_status, find_items_by_timerange, list_items,
    log_item, update_items,
};
