[package]
name = "similar_songs"
version = "0.1.0"
edition = "2021"
publish = false

[dependencies]
csv = "1.3"
serde = { version = "1.0", features = ["derive"] }
