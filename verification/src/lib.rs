//! A layer that paces applications to reduce their input latency.
//!
//! The library holds what the layer decides and keeps track of. Whoever uses
//! it makes the calls into the driver and hands back what they returned.

pub mod amd_anti_lag;
pub mod clock;
pub mod config;
pub mod delay_controller;
pub mod device;
pub mod dispatch;
pub mod entrypoints;
pub mod extensions;
pub mod features;
pub mod fx;
pub mod hud;
pub mod instance;
pub mod physical_device;
pub mod pnext;
pub mod present_wait;
pub mod queue;
pub mod registry;
pub mod ring;
pub mod seg_queue;
pub mod strategy;
pub mod submission_span;
pub mod telemetry;
pub mod text;
pub mod timestamp_pool;
pub mod toml;
pub mod vk;
pub mod vk_layer;
pub mod wire;
