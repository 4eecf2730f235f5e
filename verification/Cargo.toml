[package]
name = "flowalyzer"
version = "0.1.0"
edition = "2021"
publish = false

[dependencies]
anyhow = "*"
aus = "*"
clap = { version = "*", features = ["derive"] }
cpal = "*"
hound = "*"
ndarray = "*"
rodio = "*"
serde = { version = "*", features = ["derive"] }
serde_json = "*"
symphonia = "*"
