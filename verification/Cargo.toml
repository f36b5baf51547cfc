[package]
name = "dogpaddle_sink"
version = "0.1.0"
edition = "2021"
publish = false

[dependencies]
arrow-array = "*"
arrow-buffer = "*"
arrow-schema = "*"
base64 = "*"
blake3 = "*"
mysql = { version = "*", default-features = false, features = ["minimal-rust"] }
rusqlite = { version = "*", features = ["bundled"] }
serde = { version = "*", features = ["derive"] }
serde_json = "*"
thiserror = "*"
tokio = { version = "*", features = ["rt", "time"] }
tokio-postgres = "*"
ureq = { version = "*", default-features = false }
url = "*"
