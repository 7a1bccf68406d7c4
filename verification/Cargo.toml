[package]
name = "niri"
version = "0.1.0"
edition = "2021"

[dependencies]
anyhow = "1"
calloop = "0.14"
gdk-pixbuf = "*"
knuffel = "3.2"
smithay = { version = "0.7", default-features = false, features = ["wayland_frontend"] }
