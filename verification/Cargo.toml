[package]
name = "csv_converter"
version = "0.1.0"
edition = "2021"
publish = false

[dependencies]
rust_xlsxwriter = "*"
csv = "*"
serde = { version = "*", features = ["derive"] }
