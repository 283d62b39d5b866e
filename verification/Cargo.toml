[package]
name = "localdb_core"
version = "0.1.0"
edition = "2021"
publish = false

[dependencies]
async-trait = "0.1"
blake3 = { version = "1", default-features = false, features = ["pure"] }
dirs = "*"
globset = "0.4"
hex = "0.4"
http = "1"
pulldown-cmark = { version = "0.13", default-features = false }
schemars = "1"
serde = { version = "1", features = ["derive"] }
serde_json = { version = "1", features = ["float_roundtrip"] }
serde_yaml = "0.9"
thiserror = "2"
tracing = "0.1"
url = "2"
