[package]
name = "rust_shell"
version = "0.1.0"
edition = "2021"
publish = false

[dependencies]
glob = "*"
hostname = "*"
itertools = "*"
term_size = "*"
termcolor = "*"
termios = "*"
