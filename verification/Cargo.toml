[package]
name = "volume_scheduler"
version = "0.1.0"
edition = "2021"
publish = false

[dependencies]
chrono = "*"
serde = { version = "*", features = ["derive"] }
thiserror = "*"
tokio = { version = "*", features = ["macros", "rt-multi-thread", "signal", "time", "fs"] }
toml = "*"
tracing = "*"
tracing-subscriber = "*"
which = "*"
