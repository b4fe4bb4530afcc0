[package]
name = "twofactor_incomplete"
version = "0.1.0"
edition = "2021"
publish = false

[dependencies]
chrono = "0.4"
diesel = { version = "2", features = ["sqlite"] }
