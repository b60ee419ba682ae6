[package]
name = "icalendar_txt"
version = "0.1.0"
edition = "2021"
publish = false

[dependencies]
chrono = "0.4"
nom = "8"
clap = { version = "4", features = ["derive"] }
duct = "*"
git2 = { version = "*", default-features = false }
godot = "*"
