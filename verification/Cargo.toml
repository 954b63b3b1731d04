[package]
name = "flowtap"
version = "0.0.3"
edition = "2021"
publish = false

[dependencies]
anyhow = "=1.0.104"
aya = "=0.13.1"
chrono = { version = "=0.4.45", features = ["clock", "std"] }
clap = { version = "=4.6.7", features = ["derive"] }
libc = "=0.2.191"
serde = { version = "=1.0.229", features = ["derive"] }
serde_json = "=1.0.154"
tokio = { version = "=1.54.1", features = ["macros", "rt-multi-thread", "net", "signal"] }
