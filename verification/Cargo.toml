[package]
name = "aprs_parser"
version = "0.4.0"
edition = "2021"
publish = false

[dependencies]
thiserror = "1"

[dev-dependencies]
approx = "0.5"
