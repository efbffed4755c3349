[package]
name = "quantum_pulse"
version = "0.1.0"
edition = "2021"
publish = false

[dependencies]
hdrhistogram = { version = "*", default-features = false }
