//! Display identification, matching and update planning.
pub mod astal;
pub mod backlight;
pub mod commands;
pub mod display;
pub mod logical_windows;
pub mod manager;
pub mod matching;
pub mod monitors;
pub mod order;
pub mod physical_linux;
pub mod session;
pub mod text;
pub mod types;
