[package]
name = "pt_fuser"
version = "0.1.0"
edition = "2021"
publish = false

[dependencies]
flate2 = "1"
flexbuffers = "*"
regex = "1"
serde = { version = "1", features = ["derive"] }
