use vstd::prelude::*;
use vstd::arithmetic::power::{pow, lemma_pow1, lemma_pow_positive, lemma_pow_increases};
use crate::decomposition::lemma_pow_succ;
use vstd::arithmetic::div_mod::{
    lemma_fundamental_div_mod, lemma_fundamental_div_mod_converse, lemma_mod_bound,
    lemma_div_is_ordered_by_denominator, lemma_div_is_ordered, lemma_div_basics,
};
use vstd::set_lib::{set_int_range, lemma_int_range};

verus! {

/// Entry `(i, j)` of the gadget matrix for base `base`, depth `l` and modulus `q`:
/// `⌊q / base^(i - j·l + 1)⌋` inside the diagonal block `j·l <= i < (j+1)·l`,
/// zero elsewhere.
pub open spec fn gadget_entry(base: nat, l: nat, q: nat, i: int, j: int) -> u32 {
    if j * l <= i < (j + 1) * l {
        (q as int / pow(base as int, (i - j * l + 1) as nat)) as u32
    } else {
        0
    }
}

/// The structured decomposition matrix `GT` of shape `l(n+1) × (n+1)`.
pub struct GadgetMatrix {
    pub matrix: Vec<Vec<u32>>,
}

impl GadgetMatrix {
    /// The matrix is the gadget matrix for `(n, base, l, q)`.
    pub open spec fn is_gadget(&self, n: nat, base: nat, l: nat, q: nat) -> bool {
        &&& self.matrix@.len() == (n + 1) * l
        &&& forall|i: int| 0 <= i < self.matrix@.len() ==> (#[trigger] self.matrix@[i])@.len() == n + 1
        &&& forall|i: int, j: int|
            0 <= i < self.matrix@.len() && 0 <= j <= n ==> (#[trigger] self.matrix@[i]@[j]) == gadget_entry(
                base,
                l,
                q,
                i,
                j,
            )
    }

    /// Builds the gadget matrix for LWE dimension `n`, base `base`, depth `l` and
    /// modulus `q`.
    pub fn new(n: usize, base: u32, l: usize, q: u64) -> (r: Self)
        requires
            base >= 1,
            pow(base as int, l as nat) <= q,
            n < usize::MAX,
            (n + 1) * l <= usize::MAX,
        ensures
            r.is_gadget(n as nat, base as nat, l as nat, q as nat),
    {
        let g = gadget_vector(base, l, q);
        let rows: usize = (n + 1) * l;
        let cols: usize = n + 1;
        let mut matrix: Vec<Vec<u32>> = Vec::with_capacity(rows);
        let mut i: usize = 0;
        while i < rows
            invariant
                rows == (n + 1) * l,
                cols == n + 1,
                i <= rows,
                g@.len() == l,
                forall|k: int| 0 <= k < l ==> g@[k] == (q as int / pow(base as int, (k + 1) as nat)) as u32,
                matrix@.len() == i,
                forall|a: int| 0 <= a < i ==> (#[trigger] matrix@[a])@.len() == cols,
                forall|a: int, j: int|
                    0 <= a < i && 0 <= j < cols ==> (#[trigger] matrix@[a]@[j]) == gadget_entry(
                        base as nat,
                        l as nat,
                        q as nat,
                        a,
                        j,
                    ),
            decreases rows - i,
        {
            proof {
                assert(l > 0) by (nonlinear_arith)
                    requires
                        i < (n + 1) * l,
                ;
                lemma_fundamental_div_mod(i as int, l as int);
                lemma_mod_bound(i as int, l as int);
            }
            let block: usize = i / l;
            let offset: usize = i % l;
            proof {
                assert(block < n + 1) by (nonlinear_arith)
                    requires
                        i < (n + 1) * l,
                        i == l * block + offset,
                        0 <= offset,
                        l > 0,
                ;
            }
            let mut row: Vec<u32> = Vec::with_capacity(cols);
            let mut j: usize = 0;
            while j < cols
                invariant
                    cols == n + 1,
                    j <= cols,
                    l > 0,
                    block < cols,
                    i == l * block + offset,
                    0 <= offset < l,
                    g@.len() == l,
                    forall|k: int| 0 <= k < l ==> g@[k] == (q as int / pow(base as int, (k + 1) as nat)) as u32,
                    row@.len() == j,
                    forall|c: int|
                        0 <= c < j ==> (#[trigger] row@[c]) == gadget_entry(
                            base as nat,
                            l as nat,
                            q as nat,
                            i as int,
                            c,
                        ),
                decreases cols - j,
            {
                proof {
                    lemma_block_membership(i as int, l as int, j as int, block as int, offset as int);
                }
                if j == block {
                    row.push(g[offset]);
                } else {
                    row.push(0);
                }
                j = j + 1;
            }
            matrix.push(row);
            i = i + 1;
        }
        GadgetMatrix { matrix }
    }
}

/// An entry of the gadget matrix is non-zero exactly inside its diagonal block,
/// when `2 <= base` and `base^l <= q <= 2^32`.
pub proof fn lemma_gadget_entry_nonzero(base: nat, l: nat, q: nat, i: int, j: int)
    requires
        2 <= base,
        pow(base as int, l) <= q <= 0x1_0000_0000,
    ensures
        (gadget_entry(base, l, q, i, j) != 0) <==> (j * l <= i < (j + 1) * l),
{
    if j * l <= i < (j + 1) * l {
        let e = (i - j * l + 1) as nat;
        assert((j + 1) * l == j * l + l) by (nonlinear_arith);
        let p = pow(base as int, e);
        lemma_pow_increases(base, 1, e);
        lemma_pow_increases(base, e, l);
        lemma_pow1(base as int);
        lemma_div_is_ordered_by_denominator(q as int, 2, p);
        lemma_div_is_ordered(p, q as int, p);
        lemma_div_basics(p);
        assert(q as int / 2 <= 0x8000_0000);
        assert(1 <= q as int / p <= 0x8000_0000);
    }
}

/// In every column `j` of a gadget matrix with `2 <= base` and
/// `base^l <= q <= 2^32`, the rows holding a non-zero entry are exactly the `l`
/// rows `j·l .. (j+1)·l`.
pub proof fn lemma_gadget_zero_pattern(m: &GadgetMatrix, n: nat, base: nat, l: nat, q: nat, j: int)
    requires
        m.is_gadget(n, base, l, q),
        2 <= base,
        pow(base as int, l) <= q <= 0x1_0000_0000,
        0 <= j <= n,
    ensures
        forall|i: int|
            0 <= i < m.matrix@.len() ==> ((#[trigger] m.matrix@[i]@[j] != 0) <==> (j * l <= i < (j
                + 1) * l)),
        Set::new(|i: int| 0 <= i < m.matrix@.len() && m.matrix@[i]@[j] != 0) == set_int_range(
            j * l,
            (j + 1) * l,
        ),
        set_int_range(j * l, (j + 1) * l).len() == l,
{
    assert forall|i: int|
        0 <= i < m.matrix@.len() implies ((#[trigger] m.matrix@[i]@[j] != 0) <==> (j * l <= i < (j
        + 1) * l)) by {
        lemma_gadget_entry_nonzero(base, l, q, i, j);
    }
    assert((j + 1) * l == j * l + l) by (nonlinear_arith);
    assert(0 <= j * l) by (nonlinear_arith)
        requires
            0 <= j,
    ;
    assert((j + 1) * l <= (n + 1) * l) by (nonlinear_arith)
        requires
            j <= n,
    ;
    assert(Set::new(|i: int| 0 <= i < m.matrix@.len() && m.matrix@[i]@[j] != 0) =~= set_int_range(
        j * l,
        (j + 1) * l,
    ));
    lemma_int_range(j * l, (j + 1) * l);
}

/// Row `i` lies in diagonal block `j` exactly when `j` is `i / l`, and then its
/// place in the block is `i mod l`.
proof fn lemma_block_membership(i: int, l: int, j: int, block: int, offset: int)
    requires
        l > 0,
        0 <= j,
        i == l * block + offset,
        0 <= offset < l,
    ensures
        (j * l <= i < (j + 1) * l) <==> j == block,
        j == block ==> i - j * l == offset,
{
    assert((j + 1) * l == j * l + l) by (nonlinear_arith);
    if j * l <= i < (j + 1) * l {
        assert(l * block == block * l) by (nonlinear_arith);
        lemma_fundamental_div_mod_converse(i, l, j, i - j * l);
        lemma_fundamental_div_mod_converse(i, l, block, offset);
    }
    if j == block {
        assert(j * l == l * block) by (nonlinear_arith)
            requires
                j == block,
        ;
    }
}

/// The gadget vector `⌊q / base^(k+1)⌋` for `k < l`.
fn gadget_vector(base: u32, l: usize, q: u64) -> (g: Vec<u32>)
    requires
        base >= 1,
        pow(base as int, l as nat) <= q,
    ensures
        g@.len() == l,
        forall|k: int| 0 <= k < l ==> g@[k] == (q as int / pow(base as int, (k + 1) as nat)) as u32,
{
    let mut g: Vec<u32> = Vec::with_capacity(l);
    let mut p: u64 = 1;
    let mut k: usize = 0;
    proof {
        reveal(pow);
    }
    while k < l
        invariant
            base >= 1,
            k <= l,
            pow(base as int, l as nat) <= q,
            p as int == pow(base as int, k as nat),
            g@.len() == k,
            forall|t: int| 0 <= t < k ==> g@[t] == (q as int / pow(base as int, (t + 1) as nat)) as u32,
        decreases l - k,
    {
        proof {
            lemma_pow_increases(base as nat, (k + 1) as nat, l as nat);
            lemma_pow_succ(base as int, k as nat);
            lemma_pow_positive(base as int, (k + 1) as nat);
            assert(p * base == base * p) by (nonlinear_arith);
        }
        p = p * (base as u64);
        g.push((q / p) as u32);
        k = k + 1;
    }
    g
}

/// Gadget matrices built so far, each kept under the parameters it was built for.
pub struct GadgetCache {
    pub keys: Vec<(usize, u32, usize, u64)>,
    pub matrices: Vec<GadgetMatrix>,
}

impl GadgetCache {
    /// Every stored matrix is the gadget matrix of its key.
    pub open spec fn wf(&self) -> bool {
        &&& self.keys@.len() == self.matrices@.len()
        &&& forall|k: int|
            0 <= k < self.keys@.len() ==> {
                let key = #[trigger] self.keys@[k];
                self.matrices@[k].is_gadget(key.0 as nat, key.1 as nat, key.2 as nat, key.3 as nat)
            }
    }

    pub fn new() -> (r: Self)
        ensures
            r.wf(),
            r.keys@.len() == 0,
    {
        GadgetCache { keys: Vec::new(), matrices: Vec::new() }
    }

    /// Finds the matrix for `(n, base, l, q)`, building and storing it on first use.
    /// Returns its place in `matrices`; matrices already stored stay as they are.
    pub fn get_gadget_matrix(&mut self, n: usize, base: u32, l: usize, q: u64) -> (idx: usize)
        requires
            old(self).wf(),
            base >= 1,
            pow(base as int, l as nat) <= q,
            n < usize::MAX,
            (n + 1) * l <= usize::MAX,
        ensures
            final(self).wf(),
            idx < final(self).matrices@.len(),
            final(self).keys@[idx as int] == (n, base, l, q),
            final(self).matrices@[idx as int].is_gadget(n as nat, base as nat, l as nat, q as nat),
            final(self).matrices@.len() >= old(self).matrices@.len(),
            forall|k: int|
                0 <= k < old(self).matrices@.len() ==> final(self).matrices@[k] == old(
                    self,
                ).matrices@[k] && final(self).keys@[k] == old(self).keys@[k],
            old(self).keys@.contains((n, base, l, q)) ==> final(self).keys@ == old(self).keys@
                && final(self).matrices@ == old(self).matrices@,
            !old(self).keys@.contains((n, base, l, q)) ==> final(self).keys@ == old(self).keys@.push(
                (n, base, l, q),
            ) && final(self).matrices@.len() == old(self).matrices@.len() + 1,
    {
        let mut k: usize = 0;
        while k < self.keys.len()
            invariant
                self.wf(),
                self.keys@ == old(self).keys@,
                self.matrices@ == old(self).matrices@,
                k <= self.keys@.len(),
                forall|t: int| 0 <= t < k ==> self.keys@[t] != (n, base, l, q),
            decreases self.keys@.len() - k,
        {
            let key = self.keys[k];
            if key.0 == n && key.1 == base && key.2 == l && key.3 == q {
                return k;
            }
            k = k + 1;
        }
        assert(!old(self).keys@.contains((n, base, l, q)));
        let m = GadgetMatrix::new(n, base, l, q);
        self.keys.push((n, base, l, q));
        self.matrices.push(m);
        proof {
            assert forall|t: int| 0 <= t < self.keys@.len() implies {
                let key = #[trigger] self.keys@[t];
                self.matrices@[t].is_gadget(key.0 as nat, key.1 as nat, key.2 as nat, key.3 as nat)
            } by {
                if t < self.keys@.len() - 1 {
                    assert(self.keys@[t] == old(self).keys@[t]);
                    assert(self.matrices@[t] == old(self).matrices@[t]);
                }
            }
        }
        self.keys.len() - 1
    }
}

} // verus!
