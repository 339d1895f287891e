[package]
name = "rsmv"
version = "0.1.0"
edition = "2021"
publish = false

[dependencies]
base64 = "0.21"
clap = { version = "4", features = ["derive"] }
clipboard = "0.5"
image = "0.24"
mime_guess = "2"
