//! What the commands on work items decide and compute.

pub mod edit;
pub mod export;
pub mod filter;
pub mod finish;
pub mod list;
pub mod pause;
