[package]
name = "creb"
version = "0.1.0"
edition = "2021"
publish = false

[dependencies]
xml-rs = "=1.0.0"
epub = "=2.1.5"
ratatui = "=0.30.2"
ratatui-image = { version = "=11.1.0", default-features = false, features = ["image-defaults", "crossterm"] }
image = "=0.25.10"
clap = { version = "=4.6.7", features = ["derive"] }
