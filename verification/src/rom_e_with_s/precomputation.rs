//! Live pre-signatures of the variant with a blinding value.
use crate::field::Scalar;
use vstd::prelude::*;

verus! {

/// A pre-signature made ready for one signer set: shares of `a`, of
/// `alpha = a * s`, of `delta = a * sk`, and of `s`.
pub struct LivePreSignature {
    pub a_share: Scalar,
    pub alpha_share: Scalar,
    pub delta_share: Scalar,
    pub s_share: Scalar,
}

} // verus!
