[package]
name = "evalraz"
version = "0.1.0"
edition = "2021"
publish = false

[dependencies]
clap = "2"
rand = "0.3"
time = "0.1"
