[package]
name = "tauri-core-tools"
version = "0.1.0"
edition = "2021"
publish = false

[dependencies]
serde = { version = "1", features = ["derive"] }
serde_json = "1"
percent-encoding = "2"
url = "2"
bincode = "2"
handlebars = "6"
walkdir = "2"
reqwest = { version = "0.12", default-features = false, features = ["blocking", "json"] }
thiserror = "2"
futures = "0.3"
tauri = { version = "2", default-features = false }
