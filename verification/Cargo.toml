[package]
name = "terminal_cli"
version = "0.1.0"
edition = "2021"
publish = false

[dependencies]
crossterm = "*"
libc = "0.2"
termion = "*"
termios = "0.3"
