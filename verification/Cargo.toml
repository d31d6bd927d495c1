[package]
name = "korrupt"
version = "0.1.0"
edition = "2021"
publish = false

[dependencies]
clap = "2"
rand = { version = "0.8", default-features = false }
rand_xorshift = "0.3"
