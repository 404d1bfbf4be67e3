[package]
name = "last"
version = "0.1.0"
edition = "2021"
publish = false

[dependencies]
sha2 = "0.10"
sha1 = "0.10"
md-5 = "0.10"
serde = { version = "1", features = ["derive"] }
serde_json = "1"
chrono = "0.4"
clap = { version = "4", features = ["derive"] }
dirs = "*"
flate2 = "1"
tar = "0.4"
zip = { version = "2", default-features = false, features = ["deflate"] }
sevenz-rust = "0.6"
junction = "1"
reqwest = { version = "0.12", default-features = false, features = ["blocking", "rustls-tls"] }
rhai = { version = "1", features = ["serde"] }
walkdir = "2"
anyhow = "1"
thiserror = "1"
