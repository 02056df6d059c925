[package]
name = "block_scheduler"
version = "0.1.0"
edition = "2021"
publish = false

[dependencies]
chrono-light = "*"
frame-support = "*"
parity-scale-codec = { version = "*", features = ["derive", "max-encoded-len"] }
scale-info = { version = "*", features = ["derive"] }
sp-runtime = "*"
sp-std = "*"
