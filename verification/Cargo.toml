[package]
name = "lxe"
version = "0.1.0"
edition = "2021"
publish = false

[dependencies]
sha2 = "*"
zstd = "*"
ruzstd = "*"
tar = "*"
base64 = "*"
ed25519-dalek = "*"
rand = "0.8"
serde = { version = "*", features = ["derive"] }
serde_json = "*"
toml = "*"
dirs = "*"
