[package]
name = "quota_tray"
version = "0.1.0"
edition = "2021"
publish = false

[dependencies]
anyhow = "1"
env_logger = { version = "0.11", default-features = false }
futures-util = { version = "0.3", default-features = false, features = ["std"] }
libc = "0.2"
log = "0.4"
reqwest = { version = "0.12", default-features = false, features = ["blocking", "json", "rustls-tls"] }
serde = { version = "1", features = ["derive"] }
serde_json = "1"
tiny-skia = "0.11"
tokio = { version = "1", features = ["rt-multi-thread", "macros", "sync", "time", "signal"] }
zbus = { version = "5", default-features = false, features = ["tokio"] }
