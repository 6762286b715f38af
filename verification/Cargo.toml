[package]
name = "margin_notes"
version = "0.1.0"
edition = "2021"
publish = false

[dependencies]
flate2 = "1"
glob = "0.3"
gray_matter = "0.2"
indextree = "4"
regex = "1"
serde = { version = "1", features = ["derive"] }
serde_yaml = "0.8"
sxd-document = "0.3"
sxd-xpath = "0.4"
