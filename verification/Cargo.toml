[package]
name = "edl_client"
version = "0.1.0"
edition = "2021"
publish = false

[dependencies]
encoding = "*"
glob = "*"
ring = "*"
serde = { version = "*", features = ["derive"] }
serde_json = "*"
serial2 = "*"
serialport = { version = "*", default-features = false }
x509-parser = "*"
