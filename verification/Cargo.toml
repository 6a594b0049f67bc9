[package]
name = "fairsched"
version = "0.1.0"
edition = "2021"
publish = false

[dependencies]
aes-gcm = "*"
base64 = "*"
hex = "*"
hkdf = "*"
rand = "*"
sha2 = "*"
subtle = "*"
uuid = { version = "*", features = ["v4"] }
tokio = { version = "*", features = ["rt-multi-thread", "macros", "sync", "time"] }
