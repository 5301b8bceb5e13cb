[package]
name = "binary_processor"
version = "0.1.0"
edition = "2021"
publish = false

[dependencies]
anyhow = "1"
arrow = { version = "*", default-features = false }
byteorder = "1"
clap = { version = "4", features = ["derive"] }
memmap2 = "0.9"
parquet = { version = "*", default-features = false, features = ["arrow"] }
rand = "0.8"
rayon = "1"
serde = { version = "1", features = ["derive"] }
serde_json = "1"
