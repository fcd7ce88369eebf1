[package]
name = "quickrandr"
version = "0.1.0"
edition = "2021"
publish = false

[dependencies]
clap = "2"
edid = "*"
hex = "0.4"
serde = { version = "1", features = ["derive"] }
serde_yaml = "*"
xdg = "*"
