[package]
name = "color_hoster"
version = "0.6.3"
edition = "2021"
publish = false

[dependencies]
anyhow = "1"
evalexpr = "*"
itertools = "*"
serde = { version = "1", features = ["derive"] }
serde_json = "1"
palette = "0.7"
tokio = { version = "1", features = ["rt-multi-thread", "macros", "net", "io-util", "fs", "sync", "time"] }
tokio-util = "0.7"
log = "0.4"
fern = { version = "0.7", features = ["colored"] }
chrono = "0.4"
colored = "*"
futures = "0.3"
indexmap = "2"
async-hid = "*"
