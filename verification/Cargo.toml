[package]
name = "quicksample"
version = "0.1.0"
edition = "2021"
publish = false

[dependencies]
hound = "3.5"
dioxus = { version = "0.7", default-features = false, features = ["minimal", "document"] }
libpulse-binding = "2"
libpulse-simple-binding = "2"
rfd = { version = "0.16", default-features = false, features = ["xdg-portal", "tokio"] }
tokio = { version = "1", features = ["time"] }
