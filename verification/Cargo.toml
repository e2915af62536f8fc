[package]
name = "quest_packet"
version = "0.1.0"
edition = "2021"
publish = false

[dependencies]
wit-bindgen = "*"
