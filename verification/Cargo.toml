[package]
name = "record_id"
version = "0.1.0"
edition = "2021"
publish = false

[dependencies]
prost = { version = "0.12", default-features = false, features = ["std"] }
bytes = "1"
