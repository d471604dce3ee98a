[package]
name = "vkpace"
version = "0.1.0"
edition = "2021"
publish = false

[dependencies]
ash = { version = "0.38", default-features = false, features = ["std", "debug"] }
crossbeam-queue = "0.3"
dashmap = "6"
eframe = { version = "0.29", default-features = false, features = ["glow", "default_fonts", "x11"] }
egui_plot = "0.29"
libc = "0.2"
once_cell = "1"
parking_lot = "0.12"
rustc-hash = "2"
smallvec = "1"
tracing = "0.1"
tracing-subscriber = { version = "0.3", features = ["env-filter"] }
