[package]
name = "warden"
version = "0.1.0"
edition = "2021"
publish = false

[dependencies]
blake2 = "*"
sha3 = "*"
fraction = "*"
uuid = { version = "*", features = ["v5"] }
chrono = "*"
tar = "*"
libflate = "*"
postgres = "*"
walkdir = "*"
dirs = "*"
