[package]
name = "statusserver"
version = "0.1.0"
edition = "2021"
publish = false

[dependencies]
json = "*"
clap = { version = "*", features = ["derive"] }
serde = { version = "*", features = ["derive"] }
toml = "*"
notify = "*"
uuid = { version = "*", features = ["serde"] }
