use vstd::prelude::*;
use vstd::arithmetic::div_mod::{lemma_fundamental_div_mod_converse, lemma_small_mod};

verus! {

/// The ciphertext modulus `q = 2^32` of the native `u32` ring.
pub const NATIVE_MODULUS: u64 = 0x1_0000_0000;

/// An LWE ciphertext as its raw coefficient vector: the mask followed by the body.
pub struct LweCiphertext {
    pub data: Vec<u32>,
}

/// An encrypted bit: a trivial placeholder holding the bit in the clear, or a
/// real encryption.
pub enum Ciphertext {
    Trivial(bool),
    Encrypted(LweCiphertext),
}

impl Ciphertext {
    /// The raw coefficient vector of a real encryption; empty for a placeholder.
    pub open spec fn raw(&self) -> Seq<u32> {
        match self {
            Ciphertext::Encrypted(c) => c.data@,
            Ciphertext::Trivial(_) => Seq::empty(),
        }
    }

    /// A real encryption whose coefficient vector has length `size`.
    pub open spec fn is_encrypted_of_size(&self, size: nat) -> bool {
        &&& self is Encrypted
        &&& self.raw().len() == size
    }

    pub fn is_encrypted(&self) -> (r: bool)
        ensures
            r == (self is Encrypted),
    {
        match self {
            Ciphertext::Encrypted(_) => true,
            Ciphertext::Trivial(_) => false,
        }
    }

    /// The raw coefficient vector of a real encryption.
    pub fn raw_data(&self) -> (r: &Vec<u32>)
        requires
            self is Encrypted,
        ensures
            r@ == self.raw(),
    {
        match self {
            Ciphertext::Encrypted(c) => &c.data,
            Ciphertext::Trivial(_) => vstd::pervasive::unreached(),
        }
    }

    /// Wraps a raw coefficient vector as a real encryption.
    pub fn from_raw(data: Vec<u32>) -> (r: Self)
        ensures
            r is Encrypted,
            r.raw() == data@,
    {
        Ciphertext::Encrypted(LweCiphertext { data })
    }
}

/// Addition in the ring of integers modulo `2^32`.
pub open spec fn add_mod(a: u32, b: u32) -> u32 {
    ((a + b) % (NATIVE_MODULUS as int)) as u32
}

/// Element-wise addition of two raw vectors modulo `2^32`.
pub open spec fn raw_add(a: Seq<u32>, b: Seq<u32>) -> Seq<u32> {
    Seq::new(a.len(), |i: int| add_mod(a[i], b[i]))
}

/// `wrapping_add` is addition modulo `2^32`.
pub proof fn lemma_wrapping_add(a: u32, b: u32)
    ensures
        (if a + b > u32::MAX { (a + b - 0x1_0000_0000) as u32 } else { (a + b) as u32 }) == add_mod(
            a,
            b,
        ),
{
    if a + b > u32::MAX {
        lemma_fundamental_div_mod_converse(a + b, 0x1_0000_0000, 1, a + b - 0x1_0000_0000);
    } else {
        lemma_small_mod((a + b) as nat, 0x1_0000_0000);
    }
}

/// Adds two raw coefficient vectors of the same length element-wise, modulo `2^32`.
pub fn raw_vec_add(a: &Vec<u32>, b: &Vec<u32>) -> (r: Vec<u32>)
    requires
        a@.len() == b@.len(),
    ensures
        r@ == raw_add(a@, b@),
{
    let mut out: Vec<u32> = Vec::with_capacity(a.len());
    let mut i: usize = 0;
    while i < a.len()
        invariant
            a@.len() == b@.len(),
            i <= a@.len(),
            out@.len() == i,
            forall|k: int| 0 <= k < i ==> out@[k] == add_mod(a@[k], b@[k]),
        decreases a@.len() - i,
    {
        proof {
            lemma_wrapping_add(a@[i as int], b@[i as int]);
        }
        out.push(a[i].wrapping_add(b[i]));
        i = i + 1;
    }
    assert(out@ =~= raw_add(a@, b@));
    out
}

} // verus!
