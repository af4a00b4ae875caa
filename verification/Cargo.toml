[package]
name = "controller_2d"
version = "0.1.0"
edition = "2021"
publish = false

[dependencies]
bevy = { version = "=0.7.0", default-features = false }
impacted = { version = "=1.5.4", features = ["bevy-07"] }
# Nothing calls pin-project. The derive crates of bevy 0.7 use syn's `full`
# feature without asking for it, and pin-project's derive crate asks for it.
pin-project = "=1.0.12"
