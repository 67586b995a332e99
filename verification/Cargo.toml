[package]
name = "documents"
version = "0.1.0"
edition = "2021"
publish = false

[dependencies]
directories = "*"
open = "*"
serde = { version = "*", features = ["derive"] }
