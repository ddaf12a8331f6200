[package]
name = "cid_index"
version = "0.1.0"
edition = "2021"
publish = false

[dependencies]
anyhow = "1"
clap = { version = "4", features = ["derive"] }
indexmap = { version = "2", features = ["serde"] }
pbr = "=1.1.1"
pin-project-lite = "0.2"
serde = { version = "1", features = ["derive"] }
thiserror = "1"
tokio = { version = "1", features = ["fs", "io-util"] }
toml = "*"

[dev-dependencies]
blake2b_simd = "=1.0.5"
