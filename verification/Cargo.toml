[package]
name = "rhc"
version = "0.1.0"
edition = "2021"
publish = false

[dependencies]
anyhow = "=1.0.104"
atty = "=0.2.14"
attohttpc = { version = "=0.31.0", features = ["json", "form"] }
csv = "=1.4.0"
scopeguard = "=1.2.0"
serde = { version = "=1.0.229", features = ["derive"] }
serde_json = "=1.0.151"
shellexpand = "=3.1.2"
structopt = "=0.3.26"
sublime_fuzzy = "=0.7.0"
termion = "=4.0.6"
toml = "=1.1.6"
tui = { version = "=0.19.0", default-features = false, features = ["termion"] }
unicode-width = "=0.2.2"
walkdir = "=2.5.0"
