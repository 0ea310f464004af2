[package]
name = "gameremap"
version = "0.1.0"
edition = "2021"
publish = false

[dependencies]
evdev = "=0.12.2"
uuid = { version = "1", features = ["v4", "serde"] }
serde = { version = "1", features = ["derive"] }
toml = "0.8"
tokio = { version = "1", features = ["rt-multi-thread", "macros", "sync", "time"] }
libc = "0.2"
dirs = "5"
clap = { version = "4", features = ["derive"] }
