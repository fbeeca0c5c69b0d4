[package]
name = "convert_bdf"
version = "0.1.0"
edition = "2021"
publish = false

[dependencies]
bitstream-io = "2"
bdf-parser = "*"
clap = "4"
