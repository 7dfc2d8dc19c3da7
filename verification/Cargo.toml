[package]
name = "esp32"
version = "0.1.0"
edition = "2021"
publish = false

[dependencies]
nom = "7"
clap = "2"
csv = "1"
serde = { version = "1", features = ["derive"] }
