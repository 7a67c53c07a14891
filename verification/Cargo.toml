[package]
name = "idm_core"
version = "0.1.0"
edition = "2021"
publish = false

[dependencies]
url = "2"
rusqlite = { version = "*", features = ["bundled"] }
md-5 = "0.10"
sha1 = "0.10"
sha2 = "0.10"
uuid = { version = "1", features = ["v4"] }
reqwest = { version = "0.12", default-features = false, features = ["blocking"] }
serde = { version = "1", features = ["derive"] }
serde_json = "1"
