[package]
name = "nekov"
version = "0.1.0"
edition = "2021"
publish = false

[dependencies]
object = "*"
clap = "*"
