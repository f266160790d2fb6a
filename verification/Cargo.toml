[package]
name = "taskmon"
version = "0.1.0"
edition = "2021"
publish = false

[dependencies]
anyhow = "=1.0.104"
axum = "=0.8.9"
aya = { version = "=0.13.1", features = ["async_tokio"] }
aya-log = "=0.2.1"
bytes = "=1.12.1"
chrono = "=0.4.45"
libc = "=0.2.190"
serde = { version = "=1.0.229", features = ["derive"] }
tokio = { version = "=1.53.2", features = ["macros", "rt-multi-thread", "signal", "sync", "net"] }
tracing = "=0.1.44"
tracing-subscriber = { version = "=0.3.23", features = ["env-filter", "fmt"] }
