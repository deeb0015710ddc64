[package]
name = "vrecall"
version = "0.1.0"
edition = "2021"
publish = false

[dependencies]
anyhow = "1"
clap = { version = "4", features = ["derive", "env"] }
hdf5-metno = "*"
indicatif = "0.17"
ndarray = "*"
rand = "0.8"
rand_distr = "0.4"
rayon = "1"
reqwest = { version = "0.12", default-features = false, features = ["blocking", "json", "rustls-tls"] }
serde_json = { version = "1", features = ["float_roundtrip"] }
