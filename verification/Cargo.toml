[package]
name = "microbiome"
version = "0.1.0"
edition = "2021"
publish = false

[dependencies]
rand = "0.8"
rayon = "1"
fixed = "1"
cordic = "0.1"
serde = { version = "1", features = ["derive"] }
serde_derive = "1"
ggez = { version = "0.9", default-features = false }
