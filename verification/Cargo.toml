[package]
name = "highlight"
version = "0.1.0"
edition = "2021"
publish = false

[dependencies]
superslice = "=1.0.0"
rustc-ap-rustc_lexer = "=727.0.0"
