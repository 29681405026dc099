//! The decisions behind the meter's windows.

pub mod auto_hide;
pub mod geometry;
pub mod monitors;
pub mod requests;
pub mod routing;
