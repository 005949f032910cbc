[package]
name = "recupe_ghost"
version = "0.1.0"
edition = "2021"
publish = false

[dependencies]
anyhow = "1"
chrono = { version = "0.4", default-features = false, features = ["clock"] }
clap = { version = "4", default-features = false, features = ["derive", "help", "std", "usage", "error-context"] }
colored = "2"
console = { version = "0.15", default-features = false }
ctrlc = "3"
dialoguer = { version = "0.11", default-features = false }
eframe = { version = "0.29", default-features = false, features = ["default_fonts", "glow", "x11"] }
indicatif = { version = "0.17", default-features = false }
rfd = { version = "0.15", default-features = false, features = ["xdg-portal", "tokio"] }
serde = { version = "1", features = ["derive"] }
serde_json = "1"
ureq = { version = "2", default-features = false, features = ["json", "tls"] }
