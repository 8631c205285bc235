use vstd::prelude::*;
use crate::lwe::{raw_add, raw_vec_add, Ciphertext, NATIVE_MODULUS};
use crate::tgsw::{ext_product_raw, TgswCiphertext, TgswParams};

verus! {

/// The affine combination that an obfuscated gate computes before its single
/// bootstrap. It is an intermediate value: it is bootstrapped once, never
/// decrypted or bootstrapped before the additive term is folded in.
pub struct GateAccumulator {
    pub data: Vec<u32>,
}

/// The 2-input boolean functions with documented gate parameters.
#[derive(Clone, Copy, Debug, PartialEq, Eq, Structural)]
pub enum GateKind {
    Nand,
    And,
    Or,
    Xnor,
}

/// One eighth of the modulus `2^32`.
pub const EIGHTH: u32 = 0x2000_0000;

/// The phase that the scheme gives to a clean encryption of `b`: `+1/8` for
/// true and `-1/8` for false, in units of the modulus.
pub open spec fn bit_phase(b: bool) -> int {
    if b {
        EIGHTH as int
    } else {
        7 * EIGHTH as int
    }
}

/// A phase lies in the half that bootstrapping maps to true.
pub open spec fn phase_is_true(p: int) -> bool {
    0 < p % (NATIVE_MODULUS as int) < 4 * EIGHTH as int
}

/// The plain boolean function of a gate kind.
pub open spec fn gate_truth(kind: GateKind, a: bool, b: bool) -> bool {
    match kind {
        GateKind::Nand => !(a && b),
        GateKind::And => a && b,
        GateKind::Or => a || b,
        GateKind::Xnor => a == b,
    }
}

/// The multiplicative constant `A` and the additive constant `d` (a raw
/// scalar, in eighths of the modulus) of each gate kind.
pub open spec fn gate_params(kind: GateKind) -> (u32, u32) {
    match kind {
        GateKind::Nand => (1, (3 * EIGHTH) as u32),
        GateKind::And => (1, (7 * EIGHTH) as u32),
        GateKind::Or => (1, EIGHTH),
        GateKind::Xnor => (2, (6 * EIGHTH) as u32),
    }
}

/// Parameters `(A, d)` selecting `kind`.
pub fn gate_constants(kind: GateKind) -> (r: (u32, u32))
    ensures
        r == gate_params(kind),
{
    match kind {
        GateKind::Nand => (1, 3 * EIGHTH),
        GateKind::And => (1, 7 * EIGHTH),
        GateKind::Or => (1, EIGHTH),
        GateKind::Xnor => (2, 6 * EIGHTH),
    }
}

/// Without noise, the phase `A·(phase(a) + phase(b)) + d` of every gate kind
/// lands in the half that bootstrapping maps to true exactly when the plain gate
/// gives true, for all four input pairs.
pub proof fn lemma_gate_phase_truth_table(kind: GateKind, a: bool, b: bool)
    ensures
        phase_is_true(
            gate_params(kind).0 * (bit_phase(a) + bit_phase(b)) + gate_params(kind).1,
        ) == gate_truth(kind, a, b),
{
}

/// The addend of a 1-operand gate that negates its input: half the modulus.
pub const NOT_ADDEND: u32 = 0x8000_0000;

/// The addend of a 1-operand gate that passes its input on.
pub const BUFFER_ADDEND: u32 = 0;

/// Without noise, adding half the modulus to the phase of `a` lands in the half
/// that bootstrapping maps to `!a`, and adding zero in the one it maps to `a`.
pub proof fn lemma_one_operand_phase(a: bool)
    ensures
        phase_is_true(bit_phase(a) + NOT_ADDEND) == !a,
        phase_is_true(bit_phase(a) + BUFFER_ADDEND) == a,
{
}

/// The 2-operand obfuscated gate before its bootstrap: `A ⊗ (c1 + c2) + d`,
/// where `⊗` is the external product and `+` adds coefficient vectors modulo
/// `2^32`. Every input must be a real encryption of dimension `n`.
pub fn ob_gate_2op(
    ct_1: &Ciphertext,
    ct_2: &Ciphertext,
    a: &TgswCiphertext,
    ct_d: &Ciphertext,
    tgsw_params: &TgswParams,
) -> (r: GateAccumulator)
    requires
        tgsw_params.wf(),
        a.wf_for(tgsw_params),
        ct_1.is_encrypted_of_size((tgsw_params.lwe_dimension + 1) as nat),
        ct_2.is_encrypted_of_size((tgsw_params.lwe_dimension + 1) as nat),
        ct_d.is_encrypted_of_size((tgsw_params.lwe_dimension + 1) as nat),
    ensures
        r.data@ == raw_add(
            ext_product_raw(
                a@,
                raw_add(ct_1.raw(), ct_2.raw()),
                tgsw_params.decomp_base as nat,
                tgsw_params.decomp_level as nat,
            ),
            ct_d.raw(),
        ),
{
    let sum = Ciphertext::from_raw(raw_vec_add(ct_1.raw_data(), ct_2.raw_data()));
    let product = a.ext_product(&sum, tgsw_params);
    let data = raw_vec_add(product.raw_data(), ct_d.raw_data());
    GateAccumulator { data }
}

/// The 1-operand obfuscated gate before its bootstrap: `c1 + addend`. An
/// encryption of zero as addend gives a buffer, one of half the modulus a
/// negation.
pub fn ob_gate_1op(ct_1: &Ciphertext, ct_arg_1: &Ciphertext) -> (r: GateAccumulator)
    requires
        ct_1 is Encrypted,
        ct_arg_1.is_encrypted_of_size(ct_1.raw().len()),
    ensures
        r.data@ == raw_add(ct_1.raw(), ct_arg_1.raw()),
{
    let data = raw_vec_add(ct_1.raw_data(), ct_arg_1.raw_data());
    GateAccumulator { data }
}

} // verus!
