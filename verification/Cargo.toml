[package]
name = "abl_formatter"
version = "0.1.0"
edition = "2021"
publish = false

[dependencies]
clap = "2"
pad = "0.1"
pest = "2"
pest_derive = "2"
regex = "1"
