[package]
name = "unideps"
version = "0.1.0"
edition = "2021"
publish = false

[dependencies]
anyhow = "1"
blake3 = "1"
clap = { version = "4", features = ["derive"] }
dunce = "1"
fs4 = "*"
mlua = { version = "*", features = ["lua54", "vendored"] }
petgraph = "*"
serde = { version = "1", features = ["derive"] }
serde_json = "1"
tar = "0.4"
thiserror = "*"
toml = "*"
walkdir = "2"
which = "*"
zstd = "*"
