[package]
name = "ytplay"
version = "0.1.0"
edition = "2021"
publish = false

[dependencies]
anyhow = "=1.0.104"
cpal = "=0.18.2"
image = { version = "=0.24.9", default-features = false, features = ["jpeg"] }
macroquad = "=0.4.16"
midly = "=0.5.3"
rustysynth = "=1.3.8"
