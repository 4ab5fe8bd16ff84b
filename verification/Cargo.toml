[package]
name = "iso8601-duration"
version = "0.2.0"
edition = "2021"
publish = false

[dependencies]
chrono = { version = "0.4", default-features = false, features = ["std"] }
nom = "7"
serde = "1"

[dev-dependencies]
serde_json = "1"
