[package]
name = "grow_a_cache"
version = "0.1.0"
edition = "2021"
publish = false

[dependencies]
slab = "*"
bytes = "*"
clap = { version = "*", features = ["derive"] }
serde = { version = "*", features = ["derive"] }
toml = "*"
tokio = { version = "*", features = ["rt-multi-thread", "net", "io-util", "time", "sync", "macros"] }
tracing = "*"
tracing-subscriber = { version = "*", features = ["env-filter"] }
mio = { version = "*", features = ["net", "os-poll"] }
socket2 = "*"
