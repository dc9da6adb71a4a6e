[package]
name = "dl"
version = "0.1.0"
edition = "2021"
publish = false

[dependencies]
regex = "*"
content_disposition = "*"
random-string = "*"
reqwest = { version = "*", default-features = false, features = ["blocking"] }
