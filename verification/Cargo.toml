[package]
name = "tailscale_ui"
version = "0.1.2"
edition = "2021"
publish = false

[dependencies]
ksni = "0.2"
libc = "0.2"
serde = { version = "1", features = ["derive"] }
serde_json = "1"
