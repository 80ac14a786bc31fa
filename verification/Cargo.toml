[package]
name = "fff"
version = "0.1.0"
edition = "2021"
publish = false

[dependencies]
ahash = "0.8"
bincode = "1"
clap = { version = "4", features = ["derive", "env"] }
clap_complete = "4"
git2 = { version = "*", default-features = false }
ignore = "0.4"
libc = "0.2"
mimalloc = { version = "*", default-features = false }
parking_lot = "0.12"
serde = { version = "1", features = ["derive"] }
serde_json = "1"
thiserror = "*"
tokio = { version = "1", features = ["io-util", "macros", "net", "process", "rt-multi-thread", "signal", "sync", "time"] }
toml = "*"
tracing = "0.1"

[dev-dependencies]
tempfile = "3"
