[package]
name = "pyl"
version = "0.1.0"
edition = "2021"
publish = false

[dependencies]
anyhow = "*"
ariadne = "*"
env_logger = "*"
gumdrop = "*"
log = "*"
thiserror = "*"
