[package]
name = "cm108"
version = "0.1.0"
edition = "2021"
publish = false

[dependencies]
rtrb = "0.3"
rusb = "0.9"
libc = "0.2"
clap = { version = "4", features = ["derive", "env"] }
anyhow = "1"
thiserror = "1"
tracing = "0.1"
tracing-subscriber = { version = "0.3", features = ["env-filter"] }
