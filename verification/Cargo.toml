[package]
name = "fff"
version = "0.1.0"
edition = "2021"
publish = false

[dependencies]
anyhow = "*"
clap = { version = "*", features = ["derive"] }
polars = { version = "*", default-features = false, features = ["parquet"] }
