[package]
name = "rusty_rays"
version = "0.1.0"
edition = "2021"

[dependencies]
clap = { version = "*", features = ["derive"] }
rand = "*"
serde = { version = "*", features = ["derive"] }
serde_json = "*"
