[package]
name = "lv2-atom"
version = "0.1.0"
edition = "2021"
publish = false

[dependencies]
urid = "0.1.0"
lv2-sys = "2.0.0"
lv2-units = "0.1.3"
lv2-core = "3.0.0"
