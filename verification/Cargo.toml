[package]
name = "persistent_widget"
version = "0.1.0"
edition = "2021"
publish = false

[dependencies]
iced_core = "*"
