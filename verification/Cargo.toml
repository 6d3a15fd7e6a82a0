[package]
name = "jsoncodec"
version = "0.1.0"
edition = "2021"
publish = false

[dependencies]
itoa = "1"
ryu = "1"
bytecount = "0.6"
pyo3-ffi = "0.27"
