[package]
name = "ipa_pcs"
version = "0.1.0"
edition = "2021"
publish = false

[dependencies]
ark-pallas = "0.3"
ark-ec = "0.3"
ark-ff = "0.3"
ark-serialize = "0.3"
ark-poly = "0.3"
blake2 = "0.10"
rand = "0.8"
