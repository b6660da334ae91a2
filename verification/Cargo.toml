[package]
name = "drumsthesia"
version = "0.1.0"
edition = "2021"
publish = false

[dependencies]
midly = "0.5"
ron = "0.8"
serde = { version = "1", features = ["derive"] }
