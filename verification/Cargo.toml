[package]
name = "ftl_saves"
version = "0.1.0"
edition = "2021"
publish = false

[dependencies]
anyhow = "=1.0.104"
bincode = "=1.3.3"
byteorder = "=1.5.0"
chrono = "=0.4.45"
chrono-humanize = "=0.2.3"
dirs = "=5.0.1"
positioned-io = "=0.3.5"
self_update = "*"
serde = { version = "=1.0.229", features = ["derive"] }
