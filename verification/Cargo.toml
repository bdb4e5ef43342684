[package]
name = "wolly"
version = "0.1.0"
edition = "2021"
publish = false

[dependencies]
miniarg = "*"
tokio = { version = "1", features = ["fs", "io-util", "macros", "net", "rt-multi-thread", "signal", "time"] }
eyre = "*"
clap = { version = "4", features = ["derive"] }
tracing = "*"
tracing-subscriber = "*"
owo-colors = "*"
thiserror = "*"
