//! From captured frames to payloads.

pub mod device;
pub mod frame;
