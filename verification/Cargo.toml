[package]
name = "stobot"
version = "0.1.0"
edition = "2021"
publish = false

[dependencies]
chrono = "0.4"
chrono-tz = "0.8"
serde = { version = "1", features = ["derive"] }
serde_json = "1"
serde-aux = "4"
reqwest = { version = "0.11", default-features = false, features = ["rustls-tls"] }
serenity = "0.11"
tokio = { version = "1", features = ["macros", "rt-multi-thread"] }
clap = { version = "4", features = ["derive"] }
async-std = "1"
