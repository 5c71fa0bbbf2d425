[package]
name = "pdf_shape"
version = "0.1.0"
edition = "2021"
publish = false

[dependencies]
streaming-stats = "0.2"
serde = { version = "1", features = ["derive"] }
