[package]
name = "typst_php"
version = "0.1.0"
edition = "2021"
publish = false

[dependencies]
typst = "=0.13.1"
typst-pdf = "=0.13.1"
typst-kit = { version = "=0.13.1", default-features = false, features = ["fonts", "embed-fonts"] }
csv = "=1.4.0"
serde_json = "=1.0.151"
bytemuck = "=1.25.2"
palette = "=0.7.7"
