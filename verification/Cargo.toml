[package]
name = "cargo_mono"
version = "0.1.0"
edition = "2021"
publish = false

[dependencies]
anyhow = "1"
cargo_metadata = "*"
clap = { version = "4", features = ["derive"] }
dashmap = "*"
futures-util = "*"
once_cell = "1"
petgraph = "*"
requestty = "*"
reqwest = { version = "*", default-features = false }
semver = "1"
serde = { version = "1", features = ["derive"] }
serde_json = "1"
tokio = { version = "1", features = ["full"] }
toml_edit = "*"
walkdir = "2"
