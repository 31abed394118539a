[package]
name = "tls_client_hello_parser"
version = "0.1.0"
edition = "2021"
publish = false

[dependencies]
std-io-peek = "*"
futures-util-io-peek = "*"

[dev-dependencies]
rustls = "0.20"
