[package]
name = "chat_mux"
version = "0.1.0"
edition = "2021"
publish = false

[dependencies]
brainrot = "*"
futures-util = "*"
