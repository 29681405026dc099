//! Saved fights.

pub mod fight_history;
pub mod fight_record;
pub mod ranking;
