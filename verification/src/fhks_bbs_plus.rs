//! Threshold BBS+ with precomputed pre-signatures: keys, pre-signatures,
//! partial signatures, and the signature built from them.
pub mod combination;
pub mod keys;
pub mod partial_threshold_signature;
pub mod precomputation;
pub mod threshold_signature;
