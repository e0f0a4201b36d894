[package]
name = "matheval"
version = "0.1.0"
edition = "2021"
publish = false

[dependencies]
rustyline = "*"
serde = { version = "1", features = ["derive"] }
