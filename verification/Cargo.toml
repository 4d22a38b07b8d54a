[package]
name = "lisp_sh"
version = "0.1.0"
edition = "2021"
publish = false

[dependencies]
linefeed = "0.6"
