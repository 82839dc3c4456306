[package]
name = "tiddlystore"
version = "0.1.0"
edition = "2021"
publish = false

[dependencies]
base64 = "*"
sha2 = "*"
hex = "*"
serde = { version = "*", features = ["derive"] }
serde_json = "*"
axum = "*"
tokio = { version = "*", features = ["macros", "rt-multi-thread", "net", "fs", "sync"] }
tower-http = { version = "*", features = ["fs"] }
rusqlite = { version = "*", features = ["bundled"] }
clap = { version = "*", features = ["derive"] }
toml = "*"
chrono = "*"
aws-config = { version = "*", features = ["behavior-version-latest"] }
aws-sdk-s3 = "*"
