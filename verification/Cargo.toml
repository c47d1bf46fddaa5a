[package]
name = "brutal_grounds"
version = "0.1.0"
edition = "2021"
publish = false

[dependencies]
bevy = { version = "0.16", default-features = false, features = ["std"] }
serde = { version = "1", features = ["derive"] }
bitcode = { version = "0.6", features = ["serde"] }
clap = { version = "4", features = ["derive"] }
