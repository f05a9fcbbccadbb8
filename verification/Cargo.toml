[package]
name = "td_todo"
version = "0.1.0"
edition = "2021"
publish = false

[dependencies]
chrono = { version = "0.4", default-features = false, features = ["clock", "std"] }
csv = "1"
directories = "*"
regex = "1"
