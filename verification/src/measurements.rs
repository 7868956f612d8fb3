//! Single operations on curve points and field elements, for timing.
pub mod curve_arithmetic_benchmarking;
