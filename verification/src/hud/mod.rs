//! The heads-up display: reading the telemetry stream and summing it up.

pub mod parse;
pub mod reader;
pub mod state;
pub mod stats;
pub mod theme;
