[package]
name = "multilinear_kzg"
version = "0.1.0"
edition = "2021"
publish = false

[dependencies]
abomonation = "0.7"
abomonation_derive = "*"
ff = "=0.13.1"
group = "=0.13.0"
pairing = "=0.23.0"
halo2curves = "=0.6.1"
sha3 = "=0.10.9"
serde = { version = "=1.0.229", features = ["derive"] }

[dev-dependencies]
rand = "=0.8.8"
bincode = "=1.3.3"
