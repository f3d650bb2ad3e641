[package]
name = "adf"
version = "0.1.0"
edition = "2021"
publish = false

[dependencies]
anyhow = "*"
clap = { version = "*", features = ["derive"] }
quick-xml = { version = "*", features = ["serialize"] }
serde = { version = "*", features = ["derive"] }
