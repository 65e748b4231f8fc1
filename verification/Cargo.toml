[package]
name = "autocrypt"
version = "0.1.0"
edition = "2021"
publish = false

[dependencies]
email = "=0.0.21"
time = { version = "=0.3.55", features = ["parsing"] }
