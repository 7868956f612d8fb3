[package]
name = "threshold_bbs_plus"
version = "0.1.0"
edition = "2021"
publish = false

[dependencies]
pairing-plus = "0.19"
ff-zeroize = "0.6"
rand_core = "0.5"
rand_xorshift = "0.2"
rand = { version = "0.7", features = ["small_rng"] }
sha2 = "0.8"
