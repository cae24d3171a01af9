[package]
name = "vecgrep"
version = "0.1.0"
edition = "2021"
publish = false

[dependencies]
anyhow = "*"
clap = { version = "*", features = ["derive", "env"] }
model2vec-rs = "*"
rayon = "*"
