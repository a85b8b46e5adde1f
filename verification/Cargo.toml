[package]
name = "wasm_driver_utils"
version = "0.1.0"
edition = "2021"
publish = false

[dependencies]
regex = "*"
ar = "*"
tempdir = "*"
ctrlc = "*"
dirs = "*"
