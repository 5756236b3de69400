[package]
name = "starbot"
version = "0.1.0"
edition = "2021"
publish = false

[dependencies]
rand = "0.8"
noise = "0.7"
actix = "0.13"
actix-rt = "2"
