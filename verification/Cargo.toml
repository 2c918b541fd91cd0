[package]
name = "vireo"
version = "0.1.0"
edition = "2021"
publish = false

[dependencies]
chrono = "0.4"
tokio = { version = "1", features = ["rt", "sync"] }
tracing = "0.1"
zbus = "*"
gtk4 = "*"
libadwaita = "*"
relm4 = "*"
webkit6 = "*"
poppler-rs = "*"
