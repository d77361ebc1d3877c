[package]
name = "buddhabrot"
version = "0.1.0"
edition = "2021"
publish = false

[dependencies]
format_num = "*"
num = "*"
png = "*"
