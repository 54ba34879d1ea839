[package]
name = "interning"
version = "0.1.0"
edition = "2021"
publish = false

[dependencies]
bincode = "1"
chrono = { version = "0.4", default-features = false, features = ["std"] }
chrono-tz = "*"
ciborium = "0.2"
get-size2 = "*"
postcard = { version = "1", features = ["use-std"] }
serde = { version = "1", features = ["derive"] }
serde_json = "1"
serde_tuple = "*"
uuid = { version = "1", features = ["serde"] }
