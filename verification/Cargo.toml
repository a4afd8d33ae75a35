[package]
name = "grapher"
version = "0.1.0"
edition = "2021"
publish = false

[dependencies]
cfg-if = "=1.0.5"
console_error_panic_hook = "=0.1.7"
eframe = "=0.17.0"
exmex = "=0.14.0"
web-sys = { version = "=0.3.106", features = ["Document", "History", "Location", "Window"] }
