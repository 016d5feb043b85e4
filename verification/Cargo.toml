[package]
name = "frclib_commands"
version = "0.1.0"
edition = "2021"
publish = false

[dependencies]
fxhash = "0.2"
thiserror = "1"
tracing = "0.1"
