[package]
name = "stream_scanner"
version = "0.1.0"
edition = "2021"
publish = false

[dependencies]
uuid = { version = "=1.29.0", features = ["v4"] }
indexmap = "=2.14.2"
lru = "=0.19.0"
bitvec = "=1.1.1"
protobuf = "=3.7.2"
wasmtime = { version = "=44.0.3", default-features = false, features = ["runtime", "cranelift", "std"] }
anyhow = "=1.0.104"
clap = { version = "=4.6.7", features = ["derive"] }
thiserror = "=2.0.21"
memmap2 = "=0.9.12"
rusty-leveldb = "=4.0.2"
