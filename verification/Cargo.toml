[package]
name = "raytracer"
version = "0.1.0"
edition = "2021"
publish = false

[dependencies]
image = "=0.24.9"
rand = "=0.8.8"
chrono = "0.4"
clap = "=2.34.0"
log = "0.4"
pretty_env_logger = "0.5"
rayon = "1"
serde = "1"
serde_derive = "1"
serde_json = "1"
signal-hook = "0.3"
