use vstd::prelude::*;

verus! {

/// Alternating bit pattern for the first operand of the integer benchmarks.
pub const PATTERN_A: u64 = 0xAA55_AA55_AA55_AA55;

/// Alternating bit pattern for the second operand of the integer benchmarks.
pub const PATTERN_B: u64 = 0xCC33_CC33_CC33_CC33;

/// The mask of the `t` low bits, `1 <= t <= 64`.
pub open spec fn low_mask(t: u32) -> u64 {
    if t >= 64 {
        u64::MAX
    } else {
        ((1u64 << t) - 1) as u64
    }
}

/// The benchmark operands for a message of `total` bits: the two patterns cut to
/// the message width, where a pattern that cuts to zero is replaced by `1` for
/// the first operand and by the full mask for the second.
pub open spec fn plaintext_pair(total: u32) -> (u64, u64) {
    if total == 0 {
        (0, 0)
    } else {
        let mask = low_mask(total);
        let a = PATTERN_A & mask;
        let b = PATTERN_B & mask;
        (if a == 0 { 1 } else { a }, if b == 0 { mask } else { b })
    }
}

/// The operands of a radix benchmark over `num_blocks` blocks of
/// `message_bits` bits each, the width capped at 64 bits.
pub fn select_plaintexts(message_bits: u32, num_blocks: usize) -> (r: (u64, u64))
    requires
        message_bits * (num_blocks as u32) <= u32::MAX,
    ensures
        r == plaintext_pair(
            if message_bits * (num_blocks as u32) >= 64 {
                64
            } else {
                (message_bits * (num_blocks as u32)) as u32
            },
        ),
{
    let width: u32 = message_bits * (num_blocks as u32);
    let total_bits: u32 = if width >= 64 {
        64
    } else {
        width
    };
    if total_bits == 0 {
        return (0, 0);
    }
    let mask: u64 = if total_bits == 64 {
        u64::MAX
    } else {
        assert(1u64 << total_bits >= 1) by (bit_vector)
            requires
                total_bits < 64,
        ;
        (1u64 << total_bits) - 1
    };
    let a = PATTERN_A & mask;
    let b = PATTERN_B & mask;
    let plaintext_a = if a == 0 {
        1
    } else {
        a
    };
    let plaintext_b = if b == 0 {
        mask
    } else {
        b
    };
    (plaintext_a, plaintext_b)
}

/// The operands of a short-integer benchmark with `message_bits` message bits:
/// the largest message `2^m - 1` and the top bit `2^(m-1)` (zero when `m = 0`).
pub fn shortint_plaintexts(message_bits: u32) -> (r: (u64, u64))
    requires
        message_bits < 64,
    ensures
        r.0 == ((1u64 << message_bits) - 1) as u64,
        r.1 == (if message_bits == 0 { 0 } else { 1u64 << ((message_bits - 1) as u32) }),
{
    assert(1u64 << message_bits >= 1) by (bit_vector)
        requires
            message_bits < 64,
    ;
    let a: u64 = (1u64 << message_bits) - 1;
    let b: u64 = if message_bits == 0 {
        0
    } else {
        1u64 << (message_bits - 1)
    };
    (a, b)
}

} // verus!
