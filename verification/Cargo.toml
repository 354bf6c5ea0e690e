[package]
name = "chronos_log"
version = "0.1.0"
edition = "2021"
publish = false

[dependencies]
chrono = { version = "0.4", default-features = false, features = ["clock"] }
rusqlite = { version = "0.32", features = ["bundled"] }
dirs = "5"
egui = { version = "0.29", default-features = false }
env_logger = { version = "0.11", default-features = false }
