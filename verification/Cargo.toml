[package]
name = "file_engine"
version = "0.1.0"
edition = "2021"
publish = false

[dependencies]
blake3 = "1"
flate2 = "1"
globset = "0.4"
infer = "*"
jwalk = "0.8"
notify = "*"
serde = { version = "1", features = ["derive"] }
serde_json = "1"
thiserror = "*"
tokio = { version = "1", features = ["fs", "io-util", "macros", "rt-multi-thread", "sync", "time"] }
tokio-stream = "0.1"
tokio-util = "0.7"
trash = "*"
unicode-normalization = "0.1"
walkdir = "2"
zip = { version = "*", default-features = false, features = ["deflate"] }
