[package]
name = "bevy_vach_assets"
version = "0.1.0"
edition = "2021"
publish = false

[dependencies]
vach = { version = "=0.5.5", features = ["compression", "crypto"] }
anyhow = "=1.0.104"
clap = { version = "=4.5.61", features = ["derive", "env"] }
walkdir = "=2.5.0"
normpath = "=1.5.2"
path-slash = "=0.2.1"
