[package]
name = "connect_four"
version = "0.1.0"
edition = "2021"

[dependencies]
rand = "0.8"
crossterm = "*"
structopt = "0.3"
