[package]
name = "near_store"
version = "0.1.0"
edition = "2021"
publish = false

[dependencies]
anyhow = "1"
bytesize = "1"
enum-map = "2"
num_cpus = "1"
once_cell = "1"
rocksdb = { version = "0.21", default-features = false, features = ["lz4", "zstd"] }
strum = { version = "0.24", features = ["derive"] }
tracing = "0.1"
