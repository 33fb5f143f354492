[package]
name = "diff_priv"
version = "0.1.0"
edition = "2021"
publish = false

[dependencies]
rand = "0.8"
uuid = { version = "1", features = ["v4"] }
csv = "1"
serde = { version = "1", features = ["derive"] }
