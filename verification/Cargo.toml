[package]
name = "pie"
version = "0.1.0"
edition = "2021"
publish = false

[dependencies]
tokio = { version = "1", features = ["rt-multi-thread", "macros"] }
reqwest = { version = "*", default-features = false, features = ["rustls-tls"] }
bytes = "1"
serde = { version = "1", features = ["derive"] }
serde_json = "1"
flate2 = "1"
tar = "*"
dirs = "*"
symlink = "*"
