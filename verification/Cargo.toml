[package]
name = "rbus"
version = "0.1.0"
edition = "2021"
publish = false

[dependencies]
byteordered = "0.6"
regex = "1"
rand = "0.8"
custom_error = "1"
structopt = { version = "0.3", features = ["paw"] }
paw = "1"
backtrace = "0.3"
