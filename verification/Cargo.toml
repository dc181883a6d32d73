[package]
name = "mnist_training"
version = "0.1.0"
edition = "2021"
publish = false

[dependencies]
flate2 = "=1.1.10"
ureq = { version = "=2.12.1", default-features = false, features = ["tls"] }
eframe = { version = "=0.37.0", default-features = false, features = ["default_fonts", "glow", "x11"] }
knok = "*"
