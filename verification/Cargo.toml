[package]
name = "ferrodb"
version = "0.1.0"
edition = "2021"
publish = false

[dependencies]
byteorder = "1"
lru = "*"
serde = { version = "1", features = ["derive"] }
serde_yaml = "*"
