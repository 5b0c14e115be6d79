[package]
name = "btleplug"
version = "0.1.0"
edition = "2021"
publish = false

[dependencies]
uuid = "=1.29.0"
thiserror = "=1.0.69"
serde = { version = "=1.0.229", features = ["derive"] }

[dev-dependencies]
uuid = "=1.29.0"
nom = "4"
