//! Duration arithmetic over start and end markers.

pub mod time_calculator;

pub use time_calculator::TimeEvent;
pub use time_calculator::calculate_unique_total_time;
