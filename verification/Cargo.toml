[package]
name = "my_notes"
version = "0.1.0"
edition = "2021"
publish = false

[dependencies]
indexmap = "2"
dirs = "*"
tempfile = "*"
