[package]
name = "uorm"
version = "0.1.0"
edition = "2021"
publish = false

[dependencies]
dashmap = "*"
tokio = { version = "*", features = ["rt", "rt-multi-thread", "macros", "sync", "time"] }
async-trait = "*"
rusqlite = { version = "*", features = ["bundled"] }
chrono = "*"
rust_decimal = "*"
glob = "*"
serde = { version = "*", features = ["derive"] }
