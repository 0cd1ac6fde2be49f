[package]
name = "nemo"
version = "0.1.0"
edition = "2021"
publish = false

[dependencies]
bounded-spsc-queue = "*"
clap = "2"
context = "*"
unicode-segmentation = "1"
