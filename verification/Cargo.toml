[package]
name = "yunexal_panel"
version = "0.5.0"
edition = "2021"
publish = false

[dependencies]
urlencoding = "2"
anyhow = "1"
tokio = { version = "1", features = ["process", "fs", "rt-multi-thread", "macros", "io-util", "time"] }
sqlx = { version = "0.8", default-features = false, features = ["sqlite", "runtime-tokio"] }
bollard = "0.19"
serde = { version = "1", features = ["derive"] }
serde_json = "1"
tracing = "0.1"
rpassword = "7"
reqwest = { version = "0.12", default-features = false, features = ["json", "rustls-tls"] }
