[package]
name = "alglobo"
version = "0.1.0"
edition = "2021"
publish = false

[dependencies]
actix = "0.13"
rand = "0.8"
std-semaphore = "0.1"
