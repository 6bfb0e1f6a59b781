[package]
name = "rage-formats"
version = "0.1.0"
edition = "2021"
publish = false

[dependencies]
flate2 = "=1.1.10"
roxmltree = "=0.21.2"
rusty_dds = { version = "=0.9.0", default-features = false, features = ["decode", "encode"] }
json = "=0.12.4"
