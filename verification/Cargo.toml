[package]
name = "sonata_synth"
version = "0.1.0"
edition = "2021"
publish = false

[dependencies]
once_cell = "1"
pyo3 = "0.20"
ort = { version = "2.0.0-rc.15", default-features = false }
divan = "0.1"
