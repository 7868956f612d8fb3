//! The variant in which `e` is derived at signing time from a nonce and a
//! blinding value `s` is used.
pub mod partial_threshold_signature;
pub mod precomputation;
