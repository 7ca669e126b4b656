[package]
name = "illiol"
version = "0.1.0"
edition = "2021"
publish = false

[dependencies]
bimap = "0.6"
regex = "1"
log = "0.4"
env_logger = "0.11"
