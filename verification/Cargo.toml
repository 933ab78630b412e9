[package]
name = "view3d"
version = "3.5.0"
edition = "2021"
publish = false

[dependencies]
clap = "2"
