[package]
name = "livre"
version = "0.1.0"
edition = "2021"
publish = false

[dependencies]
flate2 = "1"
winnow = "0.7"
serde = "1"
