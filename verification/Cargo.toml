[package]
name = "rust_decimal_cql"
version = "0.1.0"
edition = "2021"
publish = false

[dependencies]
rust_decimal = "1"
scylla = { version = "1", default-features = false }
