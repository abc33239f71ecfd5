[package]
name = "fortuner"
version = "0.1.0"
edition = "2021"
publish = false

[dependencies]
clap = "2.33"
rand = "0.8"
regex = "1"
walkdir = "2"
