[package]
name = "envelope_budget"
version = "0.1.0"
edition = "2021"
publish = false

[dependencies]
chrono = { version = "*", features = ["serde"] }
decimal = "*"
serde = "*"
serde_derive = "*"
uuid = { version = "*", features = ["v4", "serde"] }
