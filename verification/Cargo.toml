[package]
name = "pngedit"
version = "0.1.0"
edition = "2021"
publish = false

[dependencies]
png = "0.17"
anyhow = "1"
macroquad = "0.4"
