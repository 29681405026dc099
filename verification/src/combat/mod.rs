//! Combat aggregates and the storage that keeps them.

pub mod actor;
pub mod data_storage;
pub mod event_laws;
pub mod friendly_fire;
pub mod identity;
pub mod laws;
pub mod model;
pub mod name_laws;
pub mod record_laws;
pub mod roster;
pub mod skill;
pub mod summon_resolver;
pub mod sums;
pub mod target;
