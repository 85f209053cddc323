[package]
name = "hybrid_mount"
version = "0.1.0"
edition = "2021"
publish = false

[dependencies]
anyhow = "=1.0.104"
fastrand = "=2.5.0"
libc = "=0.2.190"
procfs = "=0.18.0"
rustix = { version = "=1.1.5", features = ["fs", "mount"] }
walkdir = "=2.5.0"
