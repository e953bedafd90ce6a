[package]
name = "equity_mobility"
version = "0.1.0"
edition = "2021"
publish = false

[dependencies]
sha2 = "*"
