[package]
name = "keel"
version = "0.1.0"
edition = "2021"
publish = false

[dependencies]
regex = "1"
uuid = { version = "1", features = ["v4"] }
serde = { version = "1", features = ["derive"] }
serde_json = "1"
serde_yaml_ng = "*"
async-trait = "0.1"
futures-core = "0.3"
tokio = { version = "1", features = ["rt-multi-thread", "macros", "process", "time", "fs", "net", "sync"] }
reqwest = { version = "0.12", default-features = false, features = ["json", "rustls-tls"] }
axum = "*"
rusqlite = { version = "*", features = ["bundled"] }
jsonschema = { version = "*", default-features = false }
