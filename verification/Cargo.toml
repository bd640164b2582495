[package]
name = "color_alloc"
version = "0.1.0"
edition = "2021"
publish = false

[dependencies]
ratatui = "=0.30.2"
anyhow = "=1.0.104"
