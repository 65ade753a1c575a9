//! Work-time tracking: work items with an event-sourced lifecycle, the
//! overlap-aware duration calculator, and the relational store that keeps
//! item headers, tags and events consistent.

pub mod calc;
pub mod command;
pub mod data_access;
pub mod entry;
pub mod text;
pub mod time;
pub mod work_item;
