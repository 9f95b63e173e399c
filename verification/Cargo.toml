[package]
name = "serial_plotter"
version = "0.1.0"
edition = "2021"
publish = false

[dependencies]
rand = "0.8"
eframe = "0.19"
egui_extras = "0.19"
serialport = { version = "4", default-features = false }
tracing = "0.1"
tracing-subscriber = "0.3"
