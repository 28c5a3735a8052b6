[package]
name = "chess_coach"
version = "0.1.0"
edition = "2021"
publish = false

[dependencies]
shakmaty = "=0.29.4"
serde = { version = "=1.0.229", features = ["derive"] }
serde_json = "=1.0.154"
log = "=0.4.35"
tokio = { version = "=1.54.1", features = ["rt-multi-thread", "macros", "sync", "process", "io-util"] }
reqwest = { version = "=0.12.28", default-features = false, features = ["json"] }
