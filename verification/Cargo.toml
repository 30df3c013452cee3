[package]
name = "pty_host"
version = "0.1.0"
edition = "2021"
publish = false

[dependencies]
flate2 = "1"
libc = "0.2"
serde = { version = "1", features = ["derive"] }
serde_json = "1"
tokio = { version = "1", features = ["rt-multi-thread", "macros", "net", "io-util", "sync", "time", "signal"] }
