[package]
name = "dns_query"
version = "0.1.0"
edition = "2021"
publish = false

[dependencies]
bytes = "1"
color-eyre = "0.6"
fastrand = "2"
tokio = { version = "1", features = ["macros", "net", "rt"] }
