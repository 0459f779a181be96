[package]
name = "http-body-to-bytes"
version = "0.1.0"
edition = "2021"
publish = false

[dependencies]
bytes = "1"
http-body = "1"
http-body-util = "0.1"

[dev-dependencies]
futures-util = { version = "0.3", default-features = false, features = ["std"] }
