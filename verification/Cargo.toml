[package]
name = "streamdl"
version = "0.1.0"
edition = "2021"
publish = false

[dependencies]
reqwest = { version = "*", default-features = false, features = ["json", "stream", "rustls-tls"] }
tokio = { version = "*", features = ["macros", "rt-multi-thread", "time"] }
futures-util = "*"
serde = { version = "*", features = ["derive"] }
