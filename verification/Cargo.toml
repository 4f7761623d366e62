[package]
name = "color-palette"
version = "0.1.0"
edition = "2021"
publish = false

[dependencies]
toml = "*"
uuid = { version = "*", features = ["v4", "v6"] }
winnow = "*"
glob = "*"
cli-clipboard = "*"
slint = { version = "*", default-features = false, features = ["std", "compat-1-2"] }
