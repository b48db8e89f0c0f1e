[package]
name = "loc_analyzer"
version = "0.1.0"
edition = "2021"
publish = false

[dependencies]
chrono = "*"
colored = "*"
comfy-table = "*"
handlebars = "*"
indicatif = "*"
serde = { version = "*", features = ["derive"] }
serde_json = "*"
structopt = "0.3"
tokei = "*"
