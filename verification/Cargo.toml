[package]
name = "tidas-tools"
version = "0.1.0"
edition = "2021"
publish = false

[dependencies]
sha2 = "0.10"
uuid = { version = "1", features = ["v5"] }
quick-xml = "*"
serde = { version = "1", features = ["derive"] }
serde_json = "1"
bigdecimal = "*"
encoding_rs = "*"
flate2 = "1"
zip = { version = "*", default-features = false, features = ["deflate"] }
walkdir = "2"
tempfile = "3"
crossbeam-channel = "0.5"
thiserror = "*"
