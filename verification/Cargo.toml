[package]
name = "langton_ant"
version = "0.1.0"
edition = "2021"
publish = false

[dependencies]
clap = "*"
env_logger = "*"
image = { version = "*", default-features = false, features = ["png"] }
log = "*"
