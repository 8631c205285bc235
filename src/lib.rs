//! Obfuscated logic gates over an LWE bit-encryption scheme with modulus `2^32`.
//!
//! A gate evaluates `bootstrap(A ⊗ (c1 + c2) + d)`, where `A` is a TGSW
//! encryption of a small multiplier, `⊗` the external product and `d` an
//! encrypted offset; the pair `(A, d)` selects the boolean function without
//! revealing it. This crate holds the arithmetic up to the bootstrap: digit
//! decomposition, the gadget matrix, TGSW encryption from supplied encryptions
//! of zero, the external product, gate accumulators, and the schedule of gates
//! for oblivious direct matching. Key generation, encryption of bits and the
//! bootstrap itself belong to the underlying scheme.

use vstd::prelude::*;

pub mod decomposition;
pub mod gadget;
pub mod lwe;
pub mod tgsw;
pub mod gates;
pub mod noiseless;
pub mod odm;
pub mod keys;
pub mod bench;
pub mod bits;

verus! {

} // verus!
