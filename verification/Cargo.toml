[package]
name = "pixel_canvas"
version = "0.1.0"
edition = "2021"
publish = false

[dependencies]
rand = "0.8"
quiche = "*"
libc = "0.2"
socket2 = "*"
io-uring = "*"
core_affinity = "*"
rcgen = "*"
bytes = "1"
clap = { version = "4", features = ["derive"] }
tokio = { version = "1", features = ["full"] }
quinn = "0.10"
wtransport = "*"
