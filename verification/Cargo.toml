[package]
name = "qrstyle"
version = "0.1.0"
edition = "2021"
publish = false

[dependencies]
anyhow = "*"
base64 = "*"
clap = { version = "*", features = ["derive"] }
cli-clipboard = "*"
csscolorparser = "*"
dialoguer = "*"
image = "*"
qrcode = "*"
