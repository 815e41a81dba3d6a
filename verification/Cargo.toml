[package]
name = "via_core"
version = "0.1.0"
edition = "2021"
publish = false

[dependencies]
anyhow = "1"
async-trait = "0.1"
chrono = { version = "0.4", default-features = false, features = ["clock", "std"] }
cpal = "0.15"
dotenvy = "0.15"
hound = "3"
reqwest = { version = "0.12", default-features = false, features = ["json", "multipart", "default-tls"] }
serde = { version = "1", features = ["derive"] }
serde_json = "1"
tokio = { version = "1", default-features = false, features = ["fs", "rt", "macros"] }
uuid = { version = "1", default-features = false, features = ["v4", "std"] }
walkdir = "2"
