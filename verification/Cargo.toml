[package]
name = "ggs"
version = "0.1.0"
edition = "2021"
publish = false

[dependencies]
rand = { version = "0.9", features = ["small_rng"] }
serde = { version = "1", features = ["derive"] }
serde-big-array = "0.5"
clap = { version = "4", features = ["derive"] }
rayon = "1"
