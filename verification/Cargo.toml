[package]
name = "md_reader"
version = "0.1.0"
edition = "2021"
publish = false

[dependencies]
ammonia = "4"
base64 = "0.22"
html-escape = "0.2"
mime_guess = "2"
pulldown-cmark = { version = "0.13", default-features = false, features = ["html"] }
serde = { version = "1", features = ["derive"] }
syntect = { version = "5", default-features = false, features = ["default-fancy"] }
thiserror = "2"
