[package]
name = "sis_draw"
version = "0.1.0"
edition = "2021"
publish = false

[dependencies]
clap = "*"
csv = "1"
image = "*"
serde = "1"
serde_derive = "1"
