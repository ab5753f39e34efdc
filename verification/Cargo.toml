[package]
name = "rust_rdma_bench"
version = "0.1.0"
edition = "2021"
publish = false

[dependencies]
ibverbs = "0.9.2"
clap = { version = "4", features = ["derive"] }
serde = { version = "1", features = ["derive"] }
serde_json = "1"
