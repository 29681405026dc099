//! Reading recorded packet logs.

pub mod calendar;
pub mod timestamp;
pub mod log;
pub mod report;
