[package]
name = "asyncio"
version = "0.1.0"
edition = "2021"
publish = false

[dependencies]
crossbeam-channel = "0.5"
failure = "0.1"
log = "0.4"
mio = "0.6"
