[package]
name = "diary"
version = "0.1.0"
edition = "2021"
publish = false

[dependencies]
atty = "=0.2.14"
chrono = "=0.4.45"
clap = { version = "=4.6.7", features = ["derive"] }
dotenv = "=0.15.0"
envy = "=0.4.2"
log = "=0.4.34"
reqwest = { version = "=0.13.5", default-features = false, features = ["blocking", "json", "query"] }
serde = { version = "=1.0.229", features = ["derive"] }
serde_yaml = "=0.8.26"
simple_logger = "=5.2.0"
walkdir = "=2.5.0"
yaml-front-matter = "=0.1.0"
