//! Threshold BBS+ signatures over the BLS12-381 pairing-friendly curve.
//!
//! The scalar field and the curve groups are computed by `pairing_plus`;
//! the library keeps their elements as plain values (canonical limbs and
//! canonical encodings) and states every operation over those values.
pub mod field;
pub mod curve;
pub mod helpers;
pub mod summation;
pub mod fhks_bbs_plus;
pub mod rom_e_no_s;
pub mod precomputation_mockup;
pub mod rom_e_with_s;
pub mod measurements;
