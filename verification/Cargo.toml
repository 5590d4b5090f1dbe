[package]
name = "vrc_join_notificator"
version = "0.3.3"
edition = "2021"
publish = false

[dependencies]
regex = "1.11.1"
base64 = "0.22.1"
chrono = "0.4"
reqwest = { version = "0.12.9", default-features = false, features = ["multipart", "rustls-tls"] }
tokio = { version = "1.42.0", features = ["rt-multi-thread", "macros", "time", "fs", "io-util"] }
serde = { version = "1.0.215", features = ["derive"] }
serde_json = "1"
sysinfo = "0.33.1"
tempfile = "3.20.0"
webp = "0.3.0"
image = { version = "0.25.6", default-features = false, features = ["png"] }
