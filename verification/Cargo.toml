[package]
name = "idat_decoder"
version = "0.1.0"
edition = "2021"
publish = false

[dependencies]
flate2 = "=1.1.10"
polars = { version = "=0.55.2", default-features = false, features = ["dtype-u8", "dtype-u16"] }
