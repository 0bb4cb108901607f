[package]
name = "muet"
version = "0.1.0"
edition = "2021"
publish = false

[dependencies]
alphanumeric-sort = "*"
anyhow = "*"
base64 = "*"
clap = { version = "*", features = ["derive"] }
dirs = "*"
globset = "*"
lava_torrent = "*"
log = "*"
metaflac = "*"
serde = { version = "*", features = ["derive"] }
serde_json = "*"
sha1 = "*"
simple_logger = "*"
toml = "*"
walkdir = "*"
