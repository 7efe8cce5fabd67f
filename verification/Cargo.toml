[package]
name = "homepage_server"
version = "0.1.0"
edition = "2021"
publish = false

[dependencies]
httpdate = "1"
chrono = "0.4"

[dev-dependencies]
urlencoding = "2"
