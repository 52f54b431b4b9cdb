[package]
name = "fractal_music"
version = "0.1.0"
edition = "2021"
publish = false

[dependencies]
anyhow = "1"
csv = "1"
indexmap = { version = "2", features = ["serde"] }
num-complex = { version = "0.4", features = ["serde"] }
rodio = "0.21"
serde = { version = "1", features = ["derive"] }
serde_json = "1"
