# threshold_bbs_plus

Threshold BBS+ signatures over BLS12-381 with precomputed pre-signatures,
verified with Verus.

A trusted dealer (`precomputation_mockup`) shares a secret key among `n`
parties with a `t`-out-of-`n` Shamir sharing and deals, for each signature to
come, additive shares of random `a`, `e`, `s` together with OLE sharings of
the cross products `a_i * e_j`, `a_i * s_j` and `a_i * sk_j`.  Any `t` parties
turn their pre-signatures into live ones with their Lagrange coefficients,
sign, and the partial signatures combine into an ordinary BBS+ signature.

Layout of `src/`:

- `field`, `curve`: the scalar field and the curve groups, as plain values
  (canonical limbs and encodings); every operation is a call into
  `pairing_plus` behind a small trusted wrapper.  The wrappers also state the
  laws of the prime-order groups and of the bilinear pairing, over discrete
  logarithms to the fixed generators, so that the library can show that the
  signatures it makes pass verification.
- `summation`: finite sums and their algebra, for the proofs.
- `helpers`: seeded randomness, OLE sharings, Shamir sharing and Lagrange
  coefficients, and the polynomial algebra behind interpolation.
- `fhks_bbs_plus`: keys, pre-signatures, partial and full signatures, and in
  `combination` the laws that say why the shares combine as intended.
- `rom_e_no_s`, `rom_e_with_s`: the two variants in which `e` is not part of
  the pre-signature.
- `precomputation_mockup`: the dealer.
- `measurements`: single operations, for timing.

`app/main.rs` runs a signing round and times its steps.
