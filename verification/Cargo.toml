[package]
name = "icon_codegen"
version = "0.1.0"
edition = "2021"
publish = false

[dependencies]
scraper = "*"
ego-tree = "*"
heck = "*"
regex = "*"
walkdir = "*"
dioxus = { version = "*", default-features = false, features = ["macro", "html", "signals", "hooks"] }
