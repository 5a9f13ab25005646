[package]
name = "permutation_hash"
version = "0.1.0"
edition = "2021"
publish = false

[dependencies]
ark-crypto-primitives = { version = "0.3", features = ["r1cs"] }
ark-ff = "0.3"
ark-r1cs-std = "0.3"
ark-relations = "0.3"
ark-std = "0.3"
ark-ed-on-bn254 = "0.3"
ark-ed-on-bls12-381 = "0.3"
ark-bls12-381 = "0.3"
