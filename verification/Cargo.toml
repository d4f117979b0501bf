[package]
name = "phaneros"
version = "0.1.0"
edition = "2021"
publish = false

[dependencies]
blake3 = { version = "1", default-features = false, features = ["std", "pure"] }
fastcdc = "3"
zstd = "0.13"
dirs = "*"
serde = { version = "1", features = ["derive"] }
serde_json = "1"
similar = "2"
ignore = "0.4"
toml = "*"
jiff = "0.2"
clap = { version = "4", features = ["derive"] }

[dev-dependencies]
tempfile = "3"
