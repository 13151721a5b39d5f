[package]
name = "xnano"
version = "0.1.0"
edition = "2021"
publish = false

[dependencies]
ropey = "1.6"
crossterm = "0.28"
syntect = { version = "5", default-features = false, features = ["default-fancy"] }
include_dir = "0.7"
serde_json = "1"
ureq = { version = "2", features = ["json"] }
webbrowser = "1"
