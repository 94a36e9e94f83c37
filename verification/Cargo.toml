[package]
name = "dmtools"
version = "0.1.0"
edition = "2021"
publish = false

[dependencies]
libc = "0.2"
clap = { version = "2.34", default-features = false }
log = "0.4"
env_logger = { version = "0.11", default-features = false }
regex = "1"
