[package]
name = "zotero_sync"
version = "0.1.0"
edition = "2021"
publish = false

[dependencies]
chrono = "=0.4.45"
config = "=0.15.27"
md5 = "=0.8.1"
rusqlite = { version = "=0.40.2", features = ["bundled"] }
serde = { version = "=1.0.229", features = ["derive"] }
serde_json = "=1.0.151"
slug = "=0.1.6"
tera = "=1.20.1"
uuid = { version = "=1.27.0", features = ["v4"] }
