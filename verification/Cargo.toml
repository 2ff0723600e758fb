[package]
name = "gyms"
version = "0.1.0"
edition = "2021"
publish = false

[dependencies]
rand = "0.8"
ndarray = "0.15"
anyhow = "1"
c_str_macro = "1"
