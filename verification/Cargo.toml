[package]
name = "circuit_sim"
version = "0.1.0"
edition = "2021"
publish = false

[dependencies]
console = "*"
crossterm = "*"
dialoguer = "*"
serde = { version = "*", features = ["derive"] }
serde_json = "*"
