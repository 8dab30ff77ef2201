[package]
name = "gpui-navigator"
version = "0.1.0"
edition = "2021"
publish = false

[dependencies]
lru = "=0.12.5"
