[package]
name = "dora"
version = "0.1.0"
edition = "2021"
publish = false

[dependencies]
plist = "*"
serde_json = "*"
rusqlite = { version = "*", features = ["bundled"] }
axum = "*"
tokio = { version = "*", features = ["macros", "rt-multi-thread", "net"] }
