[package]
name = "fastn"
version = "0.1.0"
edition = "2021"
publish = false

[dependencies]
diffy = "=0.3.0"
sha2 = "=0.11.0"
url = "=2.5.8"
serde = { version = "=1.0.229", features = ["derive"] }
serde_json = "=1.0.151"
pretty = "=0.12.5"
mime_guess = "=2.0.5"
