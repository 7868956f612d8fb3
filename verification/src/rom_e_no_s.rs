//! The variant in which `e` is derived at signing time and no `s` is used:
//! a pre-signature only carries shares of `a` and of `a * sk`.
pub mod precomputation;
