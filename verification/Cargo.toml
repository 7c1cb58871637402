[package]
name = "i3_wsnames"
version = "0.1.0"
edition = "2021"
publish = false

[dependencies]
clap = "3.2"
config = "0.13"
i3ipc = "0.10"
regex = "1"
serde = { version = "1", features = ["derive"] }
