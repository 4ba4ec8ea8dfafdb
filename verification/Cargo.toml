[package]
name = "papers"
version = "0.1.0"
edition = "2021"
publish = false

[dependencies]
futures = "0.3"
gtk4 = "*"
libadwaita = "*"
lru = "*"
qpdf = { version = "0.3", features = ["vendored"] }
serde_json = "1"
ureq = { version = "2", features = ["json"] }
