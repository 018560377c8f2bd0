[package]
name = "photonix_core"
version = "0.1.0"
edition = "2021"
publish = false

[dependencies]
anyhow = "=1.0.104"
image = { version = "=0.25.10", default-features = false, features = ["jpeg"] }
log = "=0.4.35"
ndarray = "=0.16.1"
num_cpus = "=1.17.0"
once_cell = "=1.21.4"
ort = { version = "=2.0.0-rc.10", default-features = false, features = ["std", "ndarray", "load-dynamic"] }
rayon = "=1.12.0"
