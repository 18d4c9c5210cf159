[package]
name = "beetle"
version = "0.1.0"
edition = "2021"
publish = false

[dependencies]
jpeg-decoder = { version = "0.3", default-features = false }
png = "0.17"
hound = "3.5"
lewton = "0.10"
