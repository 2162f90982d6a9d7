[package]
name = "hdr_backend"
version = "0.1.0"
edition = "2021"
publish = false

[dependencies]
ash = "0.38"
bitflags = "2"
bytemuck = "1"
drm = "0.14"
drm-ffi = "0.9"
indexmap = "2"
rustix = { version = "1", features = ["fs", "time"] }
thiserror = "2"
tracing = "0.1"
