[package]
name = "steambattery"
version = "0.1.0"
edition = "2021"
publish = false

[dependencies]
anyhow = "1"
futures-util = "0.3"
libc = "0.2"
tokio = { version = "1", features = ["macros", "net", "rt", "signal", "sync", "time"] }
tracing = "0.1"
tracing-subscriber = { version = "0.3", features = ["env-filter"] }
udev = "0.9"
zbus = { version = "5", default-features = false, features = ["tokio"] }
