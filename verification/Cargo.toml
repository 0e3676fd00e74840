[package]
name = "shplonk_prover"
version = "0.1.0"
edition = "2021"
publish = false

[dependencies]
halo2curves = "*"
halo2_proofs = "*"
ff = "*"
blake2b_simd = "*"
