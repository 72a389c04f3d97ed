[package]
name = "bowbend_core"
version = "0.1.0"
edition = "2021"
publish = false

[dependencies]
rand = "*"
ipnet = "*"
tokio = { version = "*", features = ["full"] }
futures = "*"
socket2 = "*"
openssl = "*"
tokio-openssl = "*"
reqwest = "*"
