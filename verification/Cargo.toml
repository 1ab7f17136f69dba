[package]
name = "gpu_arbiter"
version = "0.1.0"
edition = "2021"
publish = false

[dependencies]
axum = "=0.8.9"
evdev = { version = "=0.13.2", features = ["tokio"] }
futures-util = "=0.3.34"
inotify = "=0.11.5"
ksni = "=0.3.7"
libc = "=0.2.191"
neli = { version = "=0.7.5", features = ["async"] }
notify-rust = "=4.18.2"
serde = { version = "=1.0.229", features = ["derive"] }
serde_json = "=1.0.154"
sysinfo = "=0.40.1"
tokio = { version = "=1.54.1", features = ["full"] }
tokio-stream = "=0.1.19"
tokio-util = "=0.7.20"
toml = "=1.1.8"
tracing = "=0.1.44"
tracing-subscriber = { version = "=0.3.23", features = ["env-filter"] }
ureq = { version = "=3.5.1", default-features = false, features = ["json"] }
