[package]
name = "ultinet"
version = "0.1.0"
edition = "2021"
publish = false

[dependencies]
anyhow = "1"
bitvec = "1"
rkyv = { version = "0.7", features = ["validation", "archive_le"] }
thiserror = "1"
uuid = { version = "1", features = ["v4"] }
