[package]
name = "infekt"
version = "0.1.0"
edition = "2021"
publish = false

[dependencies]
notify = "8"
image = { version = "0.25", default-features = false }
palette = "0.7"
iced = { version = "0.14", default-features = false }
fontdb = "*"
colornames = "*"
