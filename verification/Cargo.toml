[package]
name = "urbilateria"
version = "0.1.0"
edition = "2021"
publish = false

[dependencies]
unicode-normalization = "*"
unicode-general-category = "*"
serde = { version = "1", features = ["derive"] }
serde_json = "1"
rayon = "1"
