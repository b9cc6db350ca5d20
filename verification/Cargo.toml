[package]
name = "pbjson_types"
version = "0.1.0"
edition = "2021"
publish = false

[dependencies]
serde = "1"
time = { version = "0.3", features = ["formatting", "parsing"] }

[dev-dependencies]
chrono = { version = "0.4", default-features = false, features = ["alloc"] }
serde_json = "1"
