[package]
name = "flame"
version = "0.1.0"
edition = "2021"
publish = false

[dependencies]
array-queue = "=0.4.3"
docopt = "=1.1.1"
serde = { version = "=1.0.229", features = ["derive"] }
