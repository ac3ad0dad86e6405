[package]
name = "swww-daemon"
version = "0.1.0"
edition = "2021"
publish = false

[dependencies]
libc = "=0.2.191"
log = { version = "=0.4.35", features = ["std"] }
rustix = { version = "=0.38.44", features = ["event", "net"] }
sd-notify = "=0.4.5"
