use vstd::prelude::*;
use vstd::arithmetic::power::{pow, lemma_pow_positive};
use vstd::arithmetic::div_mod::{
    lemma_div_is_ordered, lemma_fundamental_div_mod_converse, lemma_add_mod_noop, lemma_mod_bound,
};
use crate::decomposition::{lemma_pow_succ, vec_decompose, vec_digits, lemma_vec_digits_len};
use crate::gadget::{gadget_entry, GadgetCache};
use crate::lwe::{add_mod, lemma_wrapping_add, Ciphertext, NATIVE_MODULUS};

verus! {

/// Decomposition parameters of TGSW ciphertexts over an LWE scheme of dimension
/// `lwe_dimension`, with ciphertext modulus `2^32`.
pub struct TgswParams {
    pub lwe_dimension: usize,
    pub decomp_base: u32,
    pub decomp_level: usize,
}

impl TgswParams {
    pub fn new(lwe_dimension: usize, decomp_base: u32, decomp_level: usize) -> (r: Self)
        ensures
            r.lwe_dimension == lwe_dimension,
            r.decomp_base == decomp_base,
            r.decomp_level == decomp_level,
    {
        TgswParams { lwe_dimension, decomp_base, decomp_level }
    }

    /// `P = B^l`, the size of the plaintext ring of TGSW ciphertexts.
    pub open spec fn plaintext_modulus(&self) -> int {
        pow(self.decomp_base as int, self.decomp_level as nat)
    }

    /// `B >= 1`, `B^l <= q = 2^32`, and the `l(n+1) × (n+1)` shape fits in memory indices.
    pub open spec fn wf(&self) -> bool {
        &&& self.decomp_base >= 1
        &&& self.plaintext_modulus() <= NATIVE_MODULUS
        &&& self.lwe_dimension < usize::MAX
        &&& (self.lwe_dimension + 1) * self.decomp_level <= usize::MAX
    }

    /// Checks the parameters before they are used for encryption or products.
    pub fn is_valid(&self) -> (r: bool)
        ensures
            r == self.wf(),
    {
        if self.decomp_base == 0 || self.lwe_dimension == usize::MAX {
            return false;
        }
        if base_power(self.decomp_base, self.decomp_level).is_none() {
            return false;
        }
        let cols: usize = self.lwe_dimension + 1;
        cols.checked_mul(self.decomp_level).is_some()
    }
}

/// `base^l` when it is at most `2^32`.
pub fn base_power(base: u32, l: usize) -> (r: Option<u64>)
    requires
        base >= 1,
    ensures
        r == (if pow(base as int, l as nat) <= NATIVE_MODULUS {
            Some(pow(base as int, l as nat) as u64)
        } else {
            None::<u64>
        }),
{
    let mut p: u64 = 1;
    let mut k: usize = 0;
    proof {
        reveal(pow);
    }
    while k < l
        invariant
            base >= 1,
            k <= l,
            p as int == pow(base as int, k as nat),
            p <= NATIVE_MODULUS,
        decreases l - k,
    {
        proof {
            lemma_pow_succ(base as int, k as nat);
            assert(p * base <= NATIVE_MODULUS * u32::MAX) by (nonlinear_arith)
                requires
                    p <= NATIVE_MODULUS,
                    base <= u32::MAX,
            ;
            assert(p * base == base * p) by (nonlinear_arith);
        }
        p = p * (base as u64);
        k = k + 1;
        if p > NATIVE_MODULUS {
            proof {
                vstd::arithmetic::power::lemma_pow_increases(base as nat, k as nat, l as nat);
            }
            return None;
        }
    }
    Some(p)
}

/// `round(x · bl / q)`, computed as `⌊(x · bl + ⌊q/2⌋) / q⌋`.
pub open spec fn rescale(x: u32, bl: nat, q: nat) -> u32 {
    ((x * bl + q / 2) / q as int) as u32
}

/// Every element of `v` rescaled by `bl / q`.
pub open spec fn scaled(v: Seq<u32>, bl: nat, q: nat) -> Seq<u32> {
    Seq::new(v.len(), |i: int| rescale(v[i], bl, q))
}

/// The rescaled value does not exceed `x` when `bl <= q`.
proof fn lemma_rescale_bound(x: u32, bl: nat, q: nat)
    requires
        bl <= q,
        0 < q <= NATIVE_MODULUS,
    ensures
        (x * bl + q / 2) / q as int <= x,
        x * bl + q / 2 <= u64::MAX,
{
    assert(x * bl <= x * q) by (nonlinear_arith)
        requires
            bl <= q,
    ;
    assert(x * q <= u32::MAX * NATIVE_MODULUS) by (nonlinear_arith)
        requires
            q <= NATIVE_MODULUS,
            x <= u32::MAX,
    ;
    lemma_div_is_ordered(x * bl + q / 2, x * q + q / 2, q as int);
    lemma_fundamental_div_mod_converse(x * q + q / 2, q as int, x as int, (q / 2) as int);
}

/// Rescales every element of `v` by the ratio `b^l / q`, rounding to the nearest
/// integer without floating point.
pub fn vec_scale(v: Vec<u32>, b: u32, l: usize, q: u64) -> (r: Vec<u32>)
    requires
        b >= 1,
        pow(b as int, l as nat) <= q,
        0 < q <= NATIVE_MODULUS,
    ensures
        r@ == scaled(v@, pow(b as int, l as nat) as nat, q as nat),
{
    proof {
        lemma_pow_positive(b as int, l as nat);
    }
    let bl: u64 = match base_power(b, l) {
        Some(p) => p,
        None => vstd::pervasive::unreached(),
    };
    let ghost orig = v@;
    let mut v = v;
    let mut i: usize = 0;
    while i < v.len()
        invariant
            bl <= q,
            0 < q <= NATIVE_MODULUS,
            bl as int == pow(b as int, l as nat),
            v@.len() == orig.len(),
            i <= v@.len(),
            forall|k: int| 0 <= k < i ==> v@[k] == rescale(orig[k], bl as nat, q as nat),
            forall|k: int| i <= k < v@.len() ==> v@[k] == orig[k],
        decreases v@.len() - i,
    {
        let x: u32 = v[i];
        proof {
            lemma_rescale_bound(x, bl as nat, q as nat);
        }
        let s: u32 = ((x as u64 * bl + q / 2) / q) as u32;
        v.set(i, s);
        i = i + 1;
    }
    assert(v@ =~= scaled(orig, bl as nat, q as nat));
    v
}

/// Multiplication in the ring of integers modulo `2^32`.
pub open spec fn mul_mod(a: u32, b: u32) -> u32 {
    ((a * b) % (NATIVE_MODULUS as int)) as u32
}

/// `Σ_{k' < k} d[k'] · m[k'][col]` over the integers.
pub open spec fn column_dot(d: Seq<u32>, m: Seq<Seq<u32>>, col: int, k: nat) -> int
    decreases k,
{
    if k == 0 {
        0
    } else {
        column_dot(d, m, col, (k - 1) as nat) + d[k - 1] * m[k - 1][col]
    }
}

/// The vector-matrix product `d · m` modulo `2^32`, for `width` columns.
pub open spec fn vec_mat_mod(d: Seq<u32>, m: Seq<Seq<u32>>, width: nat) -> Seq<u32> {
    Seq::new(width, |col: int| (column_dot(d, m, col, d.len()) % (NATIVE_MODULUS as int)) as u32)
}

/// The external product of a TGSW matrix `m` with an LWE coefficient vector `c`:
/// `c` rescaled to `B^l / q`, decomposed into base-`B` digits, and multiplied
/// with `m`, all modulo `2^32`.
pub open spec fn ext_product_raw(m: Seq<Seq<u32>>, c: Seq<u32>, base: nat, l: nat) -> Seq<u32> {
    let d = vec_digits(scaled(c, pow(base as int, l) as nat, NATIVE_MODULUS as nat), base, l);
    vec_mat_mod(d, m, c.len())
}

/// The TGSW matrix `Z + m·GT` for the zero-encryption rows `zeros`.
pub open spec fn tgsw_matrix(m: u32, zeros: Seq<Seq<u32>>, base: nat, l: nat, width: nat) -> Seq<
    Seq<u32>,
> {
    Seq::new(
        zeros.len(),
        |i: int|
            Seq::new(
                width,
                |j: int|
                    add_mod(
                        zeros[i][j],
                        mul_mod(m, gadget_entry(base, l, NATIVE_MODULUS as nat, i, j)),
                    ),
            ),
    )
}

/// A TGSW ciphertext encrypting a scalar `m` in `Z/PZ`, `P = B^l`, as an
/// `l(n+1) × (n+1)` matrix of ring elements.
pub struct TgswCiphertext {
    pub ct_matrix: Vec<Vec<u32>>,
}

impl View for TgswCiphertext {
    type V = Seq<Seq<u32>>;

    open spec fn view(&self) -> Seq<Seq<u32>> {
        self.ct_matrix@.map_values(|r: Vec<u32>| r@)
    }
}

impl TgswCiphertext {
    /// The matrix has `l(n+1)` rows of `n+1` elements for the parameters.
    pub open spec fn wf_for(&self, params: &TgswParams) -> bool {
        &&& self@.len() == (params.lwe_dimension + 1) * params.decomp_level
        &&& forall|i: int| 0 <= i < self@.len() ==> (#[trigger] self@[i]).len() == params.lwe_dimension + 1
    }

    /// Encrypts `m` as `Z + m·GT`, where row `i` of `Z` is the coefficient vector
    /// of `zero_rows[i]`, a fresh encryption of zero, and `GT` is the gadget matrix
    /// for the parameters, taken from `gadgets`.
    pub fn new_encrypt(
        m: u32,
        tgsw_params: &TgswParams,
        gadgets: &mut GadgetCache,
        zero_rows: &Vec<Ciphertext>,
    ) -> (r: Self)
        requires
            tgsw_params.wf(),
            old(gadgets).wf(),
            zero_rows@.len() == (tgsw_params.lwe_dimension + 1) * tgsw_params.decomp_level,
            forall|i: int|
                0 <= i < zero_rows@.len() ==> (#[trigger] zero_rows@[i]).is_encrypted_of_size(
                    (tgsw_params.lwe_dimension + 1) as nat,
                ),
        ensures
            final(gadgets).wf(),
            r.wf_for(tgsw_params),
            r@ == tgsw_matrix(
                m,
                zero_rows@.map_values(|c: Ciphertext| c.raw()),
                tgsw_params.decomp_base as nat,
                tgsw_params.decomp_level as nat,
                (tgsw_params.lwe_dimension + 1) as nat,
            ),
    {
        let n = tgsw_params.lwe_dimension;
        let base = tgsw_params.decomp_base;
        let l = tgsw_params.decomp_level;
        let rows: usize = (n + 1) * l;
        let idx = gadgets.get_gadget_matrix(n, base, l, NATIVE_MODULUS);
        let gadget = &gadgets.matrices[idx];
        let ghost zeros = zero_rows@.map_values(|c: Ciphertext| c.raw());
        let ghost target = tgsw_matrix(m, zeros, base as nat, l as nat, (n + 1) as nat);
        let mut ct_matrix: Vec<Vec<u32>> = Vec::with_capacity(rows);
        let mut i: usize = 0;
        while i < rows
            invariant
                rows == (n + 1) * l,
                n < usize::MAX,
                zero_rows@.len() == rows,
                zeros == zero_rows@.map_values(|c: Ciphertext| c.raw()),
                target == tgsw_matrix(m, zeros, base as nat, l as nat, (n + 1) as nat),
                forall|k: int|
                    0 <= k < zero_rows@.len() ==> (#[trigger] zero_rows@[k]).is_encrypted_of_size(
                        (n + 1) as nat,
                    ),
                gadget.is_gadget(n as nat, base as nat, l as nat, NATIVE_MODULUS as nat),
                i <= rows,
                ct_matrix@.len() == i,
                forall|k: int| 0 <= k < i ==> (#[trigger] ct_matrix@[k])@ == target[k],
            decreases rows - i,
        {
            let zero_vec = zero_rows[i].raw_data();
            let grow = &gadget.matrix[i];
            assert(grow@.len() == n + 1);
            let mut row: Vec<u32> = Vec::with_capacity(n + 1);
            let mut j: usize = 0;
            while j < n + 1
                invariant
                    n < usize::MAX,
                    rows == (n + 1) * l,
                    i < rows,
                    zero_rows@.len() == rows,
                    zeros == zero_rows@.map_values(|c: Ciphertext| c.raw()),
                    target == tgsw_matrix(m, zeros, base as nat, l as nat, (n + 1) as nat),
                    zero_vec@ == zeros[i as int],
                    zero_vec@.len() == n + 1,
                    gadget.is_gadget(n as nat, base as nat, l as nat, NATIVE_MODULUS as nat),
                    grow == gadget.matrix@[i as int],
                    grow@.len() == n + 1,
                    j <= n + 1,
                    row@.len() == j,
                    forall|c: int| 0 <= c < j ==> row@[c] == target[i as int][c],
                decreases n + 1 - j,
            {
                let z: u32 = zero_vec[j];
                let g: u32 = grow[j];
                assert(g == gadget_entry(base as nat, l as nat, NATIVE_MODULUS as nat, i as int, j as int));
                let w: u32 = m.wrapping_mul(g);
                proof {
                    lemma_wrapping_add(z, w);
                }
                row.push(z.wrapping_add(w));
                j = j + 1;
            }
            assert(row@ =~= target[i as int]);
            ct_matrix.push(row);
            i = i + 1;
        }
        let r = TgswCiphertext { ct_matrix };
        assert(r@ =~= target);
        r
    }

    /// The external product with the LWE ciphertext `ct_lwe`: its coefficient
    /// vector rescaled to `B^l / q`, decomposed into `l(n+1)` base-`B` digits,
    /// and multiplied with this matrix modulo `2^32`. The result is not
    /// bootstrapped.
    pub fn ext_product(&self, ct_lwe: &Ciphertext, tgsw_params: &TgswParams) -> (r: Ciphertext)
        requires
            tgsw_params.wf(),
            self.wf_for(tgsw_params),
            ct_lwe.is_encrypted_of_size((tgsw_params.lwe_dimension + 1) as nat),
        ensures
            r is Encrypted,
            r.raw() == ext_product_raw(
                self@,
                ct_lwe.raw(),
                tgsw_params.decomp_base as nat,
                tgsw_params.decomp_level as nat,
            ),
    {
        let n = tgsw_params.lwe_dimension;
        let b = tgsw_params.decomp_base;
        let l = tgsw_params.decomp_level;
        let data = ct_lwe.raw_data();
        let copy = data.clone();
        assert(copy@ =~= data@);
        let scaled_vec = vec_scale(copy, b, l, NATIVE_MODULUS);
        let decomposed = vec_decompose(scaled_vec.as_slice(), b, l);
        let rows: usize = (n + 1) * l;
        let ghost d = decomposed@;
        let ghost mat = self@;
        let mut result: Vec<u32> = Vec::with_capacity(n + 1);
        let mut i: usize = 0;
        while i < n + 1
            invariant
                n < usize::MAX,
                rows == (n + 1) * l,
                d == decomposed@,
                d.len() == rows,
                mat == self@,
                self.wf_for(tgsw_params),
                tgsw_params.lwe_dimension == n,
                tgsw_params.decomp_level == l,
                i <= n + 1,
                result@.len() == i,
                forall|c: int|
                    0 <= c < i ==> result@[c] == (column_dot(d, mat, c, d.len()) % (
                    NATIVE_MODULUS as int)) as u32,
            decreases n + 1 - i,
        {
            let mut acc: u32 = 0;
            let mut j: usize = 0;
            while j < rows
                invariant
                    n < usize::MAX,
                    i < n + 1,
                    rows == (n + 1) * l,
                    d == decomposed@,
                    d.len() == rows,
                    mat == self@,
                    self.wf_for(tgsw_params),
                    tgsw_params.lwe_dimension == n,
                    tgsw_params.decomp_level == l,
                    j <= rows,
                    acc as int == column_dot(d, mat, i as int, j as nat) % (NATIVE_MODULUS as int),
                decreases rows - j,
            {
                let x: u32 = decomposed[j];
                assert(mat[j as int] == self.ct_matrix@[j as int]@);
                assert(mat[j as int].len() == n + 1);
                let y: u32 = self.ct_matrix[j][i];
                assert(y == mat[j as int][i as int]);
                let w: u32 = x.wrapping_mul(y);
                proof {
                    lemma_wrapping_add(acc, w);
                    lemma_add_mod_noop(
                        column_dot(d, mat, i as int, j as nat),
                        x * y,
                        NATIVE_MODULUS as int,
                    );
                    lemma_mod_bound(column_dot(d, mat, i as int, j as nat), NATIVE_MODULUS as int);
                    lemma_mod_bound(x * y, NATIVE_MODULUS as int);
                }
                acc = acc.wrapping_add(w);
                j = j + 1;
            }
            result.push(acc);
            i = i + 1;
        }
        proof {
            lemma_vec_digits_len(scaled_vec@, b as nat, l as nat);
        }
        assert(result@ =~= ext_product_raw(self@, ct_lwe.raw(), b as nat, l as nat));
        Ciphertext::from_raw(result)
    }
}

} // verus!
