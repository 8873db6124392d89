[package]
name = "x4productionplanner"
version = "0.1.0"
edition = "2021"
publish = false

[dependencies]
roxmltree = "*"
serde = { version = "*", features = ["derive"] }
clap = { version = "*", features = ["derive"] }
csv = "*"
toml_edit = { version = "*", features = ["serde"] }
fluent-templates = "*"
