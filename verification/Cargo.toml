[package]
name = "dynasm_loongarch"
version = "0.1.0"
edition = "2021"
publish = false

[dependencies]
byteorder = "=1.5.0"
proc-macro2 = "1"
syn = "2"
