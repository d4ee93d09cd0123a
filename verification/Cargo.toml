[package]
name = "esp-println"
version = "0.1.0"
edition = "2021"
publish = false

[dependencies]
critical-section = { version = "1", features = ["std"] }
log = "0.4"
defmt = "0.3"
