[package]
name = "astratomic"
version = "0.1.0"
edition = "2021"
publish = false

[dependencies]
rand = "0.9"
fastrand = "2"
serde = { version = "1", features = ["derive"] }
serde-big-array = "0.5"
ron = "0.8"
bincode = "1"
noise = "0.9"
itertools = "0.13"
async-channel = "2"
thiserror = "2"
smallvec = "1"
contour = "*"
atomicell = "*"
puffin = "*"
