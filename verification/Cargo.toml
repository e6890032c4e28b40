[package]
name = "reverb"
version = "0.1.0"
edition = "2021"
publish = false

[dependencies]
anyhow = "1"
arc-swap = "1"
compact_str = { version = "0.9", features = ["serde"] }
dashmap = "6"
once_cell = "1"
postcard = { version = "1", features = ["alloc"] }
quinn = "0.11"
rand = "0.9"
rustls = { version = "0.23", default-features = false, features = ["ring", "std"] }
serde = { version = "1", features = ["derive"] }
tokio = { version = "1", features = ["rt-multi-thread", "macros", "sync"] }
toml = "0.8"
