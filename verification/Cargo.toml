[package]
name = "babyduck"
version = "0.1.0"
edition = "2021"
publish = false

[dependencies]
lalrpop-util = { version = "*", default-features = false }
