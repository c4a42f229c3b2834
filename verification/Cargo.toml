[package]
name = "kvs"
version = "0.1.0"
edition = "2021"
publish = false

[dependencies]
sled = "0.34"
crossbeam = "0.8"
clap = "4"
log = "0.4"
env_logger = "0.10"

[dev-dependencies]
tempfile = "3"
