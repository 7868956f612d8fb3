//! Randomness, oblivious linear evaluation and secret sharing used to set up signers.
pub mod non_core_rng;
pub mod ole_correlation;
pub mod polynomial;
pub mod rng;
pub mod secret_sharing;
