//! A trusted-dealer stand-in for the distributed precomputation.
pub mod precomputation_generation;
