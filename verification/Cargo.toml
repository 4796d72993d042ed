[package]
name = "libwing"
version = "0.1.0"
edition = "2021"

[dependencies]
jzon = "*"
lazy_static = "1"
thiserror = "1"
