[package]
name = "director"
version = "0.1.0"
edition = "2021"
publish = false

[dependencies]
anyhow = "*"
clap = { version = "*", features = ["derive"] }
midly = "*"
serde = { version = "*", features = ["derive"] }
serde_json = "*"
