use vstd::prelude::*;

verus! {

/// The 8 bits of `value`, least significant first.
pub open spec fn bits_of(value: u8) -> Seq<bool> {
    Seq::new(8, |i: int| (value >> (i as u8)) & 1 == 1)
}

/// The bits of a byte, least significant first, in the order in which they are
/// encrypted one ciphertext each.
pub fn byte_bits(value: u8) -> (r: Vec<bool>)
    ensures
        r@ == bits_of(value),
{
    let mut out: Vec<bool> = Vec::with_capacity(8);
    let mut i: u8 = 0;
    while i < 8
        invariant
            i <= 8,
            out@.len() == i,
            forall|k: int| 0 <= k < i ==> out@[k] == ((value >> (k as u8)) & 1 == 1),
        decreases 8 - i,
    {
        out.push((value >> i) & 1 == 1);
        i = i + 1;
    }
    assert(out@ =~= bits_of(value));
    out
}

/// The bits of every byte of `corpus`, in order.
pub fn corpus_bits(corpus: &[u8]) -> (r: Vec<Vec<bool>>)
    ensures
        r@.len() == corpus@.len(),
        forall|c: int| 0 <= c < corpus@.len() ==> (#[trigger] r@[c])@ == bits_of(corpus@[c]),
{
    let mut out: Vec<Vec<bool>> = Vec::with_capacity(corpus.len());
    let mut c: usize = 0;
    while c < corpus.len()
        invariant
            c <= corpus@.len(),
            out@.len() == c,
            forall|k: int| 0 <= k < c ==> (#[trigger] out@[k])@ == bits_of(corpus@[k]),
        decreases corpus@.len() - c,
    {
        out.push(byte_bits(corpus[c]));
        c = c + 1;
    }
    out
}

/// Two bytes with the same bits are the same byte.
pub proof fn lemma_bits_of_injective(v: u8, w: u8)
    ensures
        (bits_of(v) == bits_of(w)) == (v == w),
{
    if bits_of(v) == bits_of(w) {
        assert(bits_of(v)[0] == bits_of(w)[0]);
        assert(bits_of(v)[1] == bits_of(w)[1]);
        assert(bits_of(v)[2] == bits_of(w)[2]);
        assert(bits_of(v)[3] == bits_of(w)[3]);
        assert(bits_of(v)[4] == bits_of(w)[4]);
        assert(bits_of(v)[5] == bits_of(w)[5]);
        assert(bits_of(v)[6] == bits_of(w)[6]);
        assert(bits_of(v)[7] == bits_of(w)[7]);
        assert(v == w) by (bit_vector)
            requires
                ((v >> 0u8) & 1 == 1) == ((w >> 0u8) & 1 == 1),
                ((v >> 1u8) & 1 == 1) == ((w >> 1u8) & 1 == 1),
                ((v >> 2u8) & 1 == 1) == ((w >> 2u8) & 1 == 1),
                ((v >> 3u8) & 1 == 1) == ((w >> 3u8) & 1 == 1),
                ((v >> 4u8) & 1 == 1) == ((w >> 4u8) & 1 == 1),
                ((v >> 5u8) & 1 == 1) == ((w >> 5u8) & 1 == 1),
                ((v >> 6u8) & 1 == 1) == ((w >> 6u8) & 1 == 1),
                ((v >> 7u8) & 1 == 1) == ((w >> 7u8) & 1 == 1),
        ;
    }
}

} // verus!
