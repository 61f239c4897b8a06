[package]
name = "calculator"
version = "0.1.0"
edition = "2021"

[dependencies]
eframe = "0.17"
