[package]
name = "cargo_workspaces"
version = "0.1.0"
edition = "2021"
publish = false

[dependencies]
glob = "0.3"
globset = "0.4"
semver = "1"
serde = { version = "1", features = ["derive"] }
serde_json = "1"
toml = "0.5"
cargo_metadata = "0.15"
camino = "1"
crates-index = "0.18"
