[package]
name = "nevez"
version = "0.1.0"
edition = "2021"
publish = false

[dependencies]
chrono = "*"
handlebars = "*"
dirs = "*"
flate2 = "*"
tar = "*"
tempfile = "*"
toml = "*"
serde = "*"
serde_derive = "*"
