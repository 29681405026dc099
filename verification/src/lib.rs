//! The verified core of a real-time damage meter.

pub mod capture;
pub mod clock;
pub mod combat;
pub mod dot_skills;
pub mod entity;
pub mod fields;
pub mod history;
pub mod maps;
pub mod numbers;
pub mod replay;
pub mod text;
pub mod ui;
pub mod update;
