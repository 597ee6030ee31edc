[package]
name = "kvs"
version = "0.1.0"
edition = "2021"
publish = false

[dependencies]
clap = { version = "4", features = ["derive"] }
nix = "0.26"
sled = "0.34"
slog = "2"
slog-async = "2"
slog-term = "2"
thiserror = "1"

[dev-dependencies]
bincode = "1.3"
