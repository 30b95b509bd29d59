[package]
name = "arca"
version = "0.1.0"
edition = "2021"
publish = false

[dependencies]
blake3 = "1"
crc32fast = "1"
ed25519-dalek = "2"
getrandom = "0.3"
hex = "0.4"
nix = { version = "0.30", features = ["fs", "process", "signal", "socket"] }
rusqlite = { version = "*", features = ["bundled"] }
semver = "1"
serde = { version = "1", features = ["derive"] }
sha2 = "0.10"
smol_str = "0.3"
thiserror = "2"
tracing = "0.1"
