//! Laws of the noise-free case: every encryption of zero is the zero vector
//! and every input has a zero mask, so its body equals its phase. They show
//! what gadget matrices and gate parameters compute; with noise the
//! same values hold up to the noise, which bootstrapping removes.

use vstd::prelude::*;
use vstd::arithmetic::power::{pow, lemma_pow_positive, lemma_pow_adds, lemma_pow_increases, lemma_pow1};
use vstd::arithmetic::div_mod::{
    lemma_add_mod_noop, lemma_div_is_ordered_by_denominator, lemma_fundamental_div_mod,
    lemma_fundamental_div_mod_converse, lemma_mod_bound, lemma_mod_multiples_basic,
    lemma_mod_multiples_vanish, lemma_mul_mod_noop_right, lemma_small_mod,
};
use crate::decomposition::{
    digits, digits_value, lemma_digits_value_mod, lemma_pow_succ, lemma_vec_digits_index,
    lemma_vec_digits_len, vec_digits,
};
use crate::gadget::gadget_entry;
use crate::gates::{
    bit_phase, gate_params, gate_truth, lemma_gate_phase_truth_table, phase_is_true, GateKind, EIGHTH,
};
use crate::lwe::{add_mod, raw_add, NATIVE_MODULUS};
use crate::tgsw::{column_dot, ext_product_raw, mul_mod, rescale, scaled, tgsw_matrix, TgswParams};

verus! {

/// `Σ_{j < k} d[j] · GT[j][col]` over the integers.
pub open spec fn gadget_dot(d: Seq<u32>, base: nat, l: nat, col: int, k: nat) -> int
    decreases k,
{
    if k == 0 {
        0
    } else {
        gadget_dot(d, base, l, col, (k - 1) as nat) + d[k - 1] * gadget_entry(
            base,
            l,
            NATIVE_MODULUS as nat,
            k - 1,
            col,
        )
    }
}

/// The first `t` terms of column `col`'s diagonal block in `gadget_dot`.
pub open spec fn block_dot(d: Seq<u32>, base: nat, l: nat, col: int, t: nat) -> int
    decreases t,
{
    if t == 0 {
        0
    } else {
        block_dot(d, base, l, col, (t - 1) as nat) + d[col * l + t - 1] * gadget_entry(
            base,
            l,
            NATIVE_MODULUS as nat,
            col * l + t - 1,
            col,
        )
    }
}

/// `Σ_{u < t} ds[u] · base^(l-1-u)`.
pub open spec fn weighted(ds: Seq<u32>, base: nat, l: nat, t: nat) -> int
    decreases t,
{
    if t == 0 {
        0
    } else {
        weighted(ds, base, l, (t - 1) as nat) + ds[t - 1] * pow(base as int, (l - t) as nat)
    }
}

/// Against a matrix whose column `col` is `m·GT` modulo `2^32`, the column product
/// is `m` times the product with `GT`, modulo `2^32`.
proof fn lemma_column_dot_scaled(d: Seq<u32>, mat: Seq<Seq<u32>>, m: u32, base: nat, l: nat, col: int, k: nat)
    requires
        k <= d.len(),
        k <= mat.len(),
        forall|j: int|
            0 <= j < k ==> #[trigger] mat[j][col] == mul_mod(
                m,
                gadget_entry(base, l, NATIVE_MODULUS as nat, j, col),
            ),
    ensures
        column_dot(d, mat, col, k) % (NATIVE_MODULUS as int) == (m * gadget_dot(d, base, l, col, k)) % (
        NATIVE_MODULUS as int),
    decreases k,
{
    let q = NATIVE_MODULUS as int;
    if k > 0 {
        let km = (k - 1) as nat;
        lemma_column_dot_scaled(d, mat, m, base, l, col, km);
        let g = gadget_entry(base, l, NATIVE_MODULUS as nat, km as int, col) as int;
        let x = d[km as int] as int;
        let prev = column_dot(d, mat, col, km);
        let gprev = gadget_dot(d, base, l, col, km);
        lemma_mod_bound(m * g, q);
        lemma_mul_mod_noop_right(x, m * g, q);
        lemma_add_mod_noop(prev, x * ((m * g) % q), q);
        lemma_add_mod_noop(m * gprev, x * (m * g), q);
        assert(m * gprev + x * (m * g) == m * (gprev + x * g)) by (nonlinear_arith);
    }
}

/// Outside its diagonal block a column of `GT` is zero, so only the block counts.
proof fn lemma_gadget_dot_block(d: Seq<u32>, base: nat, l: nat, col: int, k: nat)
    requires
        0 <= col,
    ensures
        gadget_dot(d, base, l, col, k) == block_dot(
            d,
            base,
            l,
            col,
            if k <= col * l { 0 } else if k >= (col + 1) * l { l } else { (k - col * l) as nat },
        ),
    decreases k,
{
    assert((col + 1) * l == col * l + l) by (nonlinear_arith);
    assert(0 <= col * l) by (nonlinear_arith)
        requires
            0 <= col,
    ;
    if k > 0 {
        let km = (k - 1) as int;
        let lo = col * l;
        let hi = (col + 1) * l;
        lemma_gadget_dot_block(d, base, l, col, km as nat);
        let g = gadget_entry(base, l, NATIVE_MODULUS as nat, km, col);
        assert(gadget_dot(d, base, l, col, k) == gadget_dot(d, base, l, col, km as nat) + d[km] * g);
        if lo <= km < hi {
            let t = (k - lo) as nat;
            assert(lo + t - 1 == km);
            assert(block_dot(d, base, l, col, t) == block_dot(d, base, l, col, (t - 1) as nat) + d[km]
                * g);
            if km == lo {
                assert(gadget_dot(d, base, l, col, km as nat) == block_dot(d, base, l, col, 0));
            } else {
                assert(gadget_dot(d, base, l, col, km as nat) == block_dot(d, base, l, col, (t - 1) as nat));
            }
            if k >= hi {
                assert(t == l);
            }
        } else {
            assert(g == 0);
            if km < lo {
                assert(k <= lo);
            } else {
                assert(k >= hi);
            }
        }
    }
}

/// Inside the block, `GT[col·l + u][col] = Δ · B^(l-1-u)` with `Δ = q / B^l`.
proof fn lemma_gadget_entry_factor(base: nat, l: nat, col: int, u: int)
    requires
        2 <= base,
        0 <= col,
        0 <= u < l,
        pow(base as int, l) <= NATIVE_MODULUS,
        NATIVE_MODULUS as int % pow(base as int, l) == 0,
    ensures
        gadget_entry(base, l, NATIVE_MODULUS as nat, col * l + u, col) as int == (NATIVE_MODULUS as int
            / pow(base as int, l)) * pow(base as int, (l - 1 - u) as nat),
{
    let q = NATIVE_MODULUS as int;
    let i = col * l + u;
    assert((col + 1) * l == col * l + l) by (nonlinear_arith);
    assert(i - col * l + 1 == u + 1);
    let e = (u + 1) as nat;
    let rest = (l - 1 - u) as nat;
    lemma_pow_adds(base as int, e, rest);
    assert(e + rest == l);
    let pe = pow(base as int, e);
    let pr = pow(base as int, rest);
    let p = pow(base as int, l);
    lemma_pow_positive(base as int, e);
    lemma_pow_positive(base as int, rest);
    lemma_pow_positive(base as int, l);
    lemma_fundamental_div_mod(q, p);
    let delta = q / p;
    assert(q == pe * (delta * pr)) by (nonlinear_arith)
        requires
            q == p * delta + q % p,
            q % p == 0,
            p == pe * pr,
    ;
    lemma_fundamental_div_mod_converse(q, pe, delta * pr, 0);
    // the entry fits in 32 bits: it is at most q / 2
    lemma_pow_increases(base, 1, e);
    lemma_pow1(base as int);
    lemma_div_is_ordered_by_denominator(q, 2, pe);
    assert(q / pe < NATIVE_MODULUS);
}

/// A weighted digit sum is the Horner value of the prefix, shifted into place.
proof fn lemma_weighted_horner(ds: Seq<u32>, base: nat, l: nat, t: nat)
    requires
        t <= l,
        ds.len() == l,
    ensures
        weighted(ds, base, l, t) == digits_value(ds.take(t as int), base) * pow(base as int, (l - t) as nat),
    decreases t,
{
    if t > 0 {
        let tm = (t - 1) as nat;
        lemma_weighted_horner(ds, base, l, tm);
        assert(ds.take(t as int).drop_last() =~= ds.take(tm as int));
        assert(ds.take(t as int).last() == ds[tm as int]);
        let r = (l - t) as nat;
        lemma_pow_succ(base as int, r);
        assert((l - tm) as nat == r + 1);
        let h = digits_value(ds.take(tm as int), base);
        let pr = pow(base as int, r);
        assert(h * (base * pr) + ds[tm as int] * pr == (h * base + ds[tm as int]) * pr) by (nonlinear_arith);
    } else {
        assert(ds.take(0) =~= Seq::<u32>::empty());
    }
}

/// The block of column `col` against the digits of `s` is `Δ` times the
/// weighted digit sum of `s`.
proof fn lemma_block_dot_digits(d: Seq<u32>, vs: Seq<u32>, base: nat, l: nat, col: int, t: nat)
    requires
        2 <= base <= u32::MAX,
        0 <= col < vs.len(),
        t <= l,
        d == vec_digits(vs, base, l),
        pow(base as int, l) <= NATIVE_MODULUS,
        NATIVE_MODULUS as int % pow(base as int, l) == 0,
    ensures
        block_dot(d, base, l, col, t) == (NATIVE_MODULUS as int / pow(base as int, l)) * weighted(
            digits(vs[col] as nat, base, l),
            base,
            l,
            t,
        ),
    decreases t,
{
    if t > 0 {
        let tm = (t - 1) as nat;
        lemma_block_dot_digits(d, vs, base, l, col, tm);
        lemma_vec_digits_index(vs, base, l, col, tm as int);
        lemma_gadget_entry_factor(base, l, col, tm as int);
        let delta = NATIVE_MODULUS as int / pow(base as int, l);
        let x = digits(vs[col] as nat, base, l)[tm as int] as int;
        let pw = pow(base as int, (l - 1 - tm) as nat);
        let w = weighted(digits(vs[col] as nat, base, l), base, l, tm);
        assert(delta * w + x * (delta * pw) == delta * (w + x * pw)) by (nonlinear_arith);
    }
}

/// Without noise, the external product of an encryption of `m` with `c` is, in
/// every coordinate, `m · Δ · round(c · B^l / q)` modulo `q = 2^32`, where
/// `Δ = q / B^l`: that is `m · c` with `c` rounded to a multiple of `Δ`. Here the
/// zero-encryption rows are all zero, `B >= 2` and `B^l` divides `q`.
pub proof fn lemma_noiseless_ext_product(
    m: u32,
    params: TgswParams,
    zeros: Seq<Seq<u32>>,
    c: Seq<u32>,
    i: int,
)
    requires
        params.wf(),
        params.decomp_base >= 2,
        NATIVE_MODULUS as int % params.plaintext_modulus() == 0,
        zeros.len() == (params.lwe_dimension + 1) * params.decomp_level,
        forall|r: int, j: int| 0 <= r < zeros.len() && 0 <= j <= params.lwe_dimension ==> #[trigger] zeros[r][j] == 0,
        c.len() == params.lwe_dimension + 1,
        0 <= i <= params.lwe_dimension,
    ensures
        ext_product_raw(
            tgsw_matrix(
                m,
                zeros,
                params.decomp_base as nat,
                params.decomp_level as nat,
                (params.lwe_dimension + 1) as nat,
            ),
            c,
            params.decomp_base as nat,
            params.decomp_level as nat,
        )[i] == ((m * (NATIVE_MODULUS as int / params.plaintext_modulus()) * rescale(
            c[i],
            params.plaintext_modulus() as nat,
            NATIVE_MODULUS as nat,
        )) % (NATIVE_MODULUS as int)) as u32,
{
    let q = NATIVE_MODULUS as int;
    let n = params.lwe_dimension as int;
    let base = params.decomp_base as nat;
    let l = params.decomp_level as nat;
    let p = params.plaintext_modulus();
    let delta = q / p;
    lemma_pow_positive(base as int, l);
    let mat = tgsw_matrix(m, zeros, base, l, (n + 1) as nat);
    let sv = scaled(c, p as nat, q as nat);
    let d = vec_digits(sv, base, l);
    lemma_vec_digits_len(sv, base, l);
    let k = d.len();
    assert(k == (n + 1) * l);
    // column i of the matrix is m·GT
    assert forall|j: int| 0 <= j < k implies #[trigger] mat[j][i] == mul_mod(
        m,
        gadget_entry(base, l, q as nat, j, i),
    ) by {
        let x = mul_mod(m, gadget_entry(base, l, q as nat, j, i));
        lemma_mod_bound(m * gadget_entry(base, l, q as nat, j, i), q);
        lemma_small_mod(x as nat, q as nat);
        assert(zeros[j][i] == 0);
    }
    lemma_column_dot_scaled(d, mat, m, base, l, i, k);
    assert(column_dot(d, mat, i, k) % q == (m * gadget_dot(d, base, l, i, k)) % q);
    lemma_gadget_dot_block(d, base, l, i, k);
    assert(k >= (i + 1) * l) by (nonlinear_arith)
        requires
            k == (n + 1) * l,
            i <= n,
    ;
    assert((i + 1) * l == i * l + l) by (nonlinear_arith);
    assert(gadget_dot(d, base, l, i, k) == block_dot(d, base, l, i, l));
    lemma_block_dot_digits(d, sv, base, l, i, l);
    let s = sv[i] as int;
    let ds = digits(s as nat, base, l);
    assert(block_dot(d, base, l, i, l) == delta * weighted(ds, base, l, l));
    lemma_weighted_horner(ds, base, l, l);
    assert(ds.take(l as int) =~= ds);
    assert(pow(base as int, 0) == 1) by {
        reveal(pow);
    }
    assert(weighted(ds, base, l, l) == digits_value(ds.take(l as int), base) * pow(
        base as int,
        (l - l) as nat,
    ));
    assert(weighted(ds, base, l, l) == digits_value(ds, base));
    lemma_digits_value_mod(s as nat, base, l);
    assert(digits_value(ds, base) == s % p);
    assert(s == rescale(c[i], p as nat, q as nat));
    assert(ext_product_raw(mat, c, base, l)[i] == (column_dot(d, mat, i, k) % q) as u32);
    // m·Δ·(s mod P) and m·Δ·s differ by a multiple of q = Δ·P
    lemma_fundamental_div_mod(s, p);
    lemma_fundamental_div_mod(q, p);
    assert(m * delta * s == m * delta * (s % p) + (m * (s / p)) * q) by (nonlinear_arith)
        requires
            s == p * (s / p) + s % p,
            q == p * delta,
    ;
    lemma_mod_multiples_vanish(m * (s / p), m * delta * (s % p), q);
    assert(m * (delta * (s % p)) == m * delta * (s % p)) by (nonlinear_arith);
}

/// A noiseless encryption of phase `p` in dimension `n`: zero mask, body `p`.
pub open spec fn noiseless(n: nat, p: u32) -> Seq<u32> {
    Seq::new(n + 1, |j: int| if j == n { p } else { 0 })
}

/// Rescaling a multiple of `Δ = q / P` is exact: it gives the multiple.
proof fn lemma_rescale_exact(x: u32, p: int)
    requires
        0 < p,
        NATIVE_MODULUS as int % p == 0,
        x as int % (NATIVE_MODULUS as int / p) == 0,
    ensures
        rescale(x, p as nat, NATIVE_MODULUS as nat) * (NATIVE_MODULUS as int / p) == x,
{
    let q = NATIVE_MODULUS as int;
    lemma_fundamental_div_mod(q, p);
    let delta = q / p;
    assert(delta > 0) by (nonlinear_arith)
        requires
            q == p * delta,
            q > 0,
            p > 0,
    ;
    lemma_fundamental_div_mod(x as int, delta);
    let j = x as int / delta;
    assert(x * p == j * q) by (nonlinear_arith)
        requires
            x == delta * j,
            q == p * delta,
    ;
    lemma_fundamental_div_mod_converse(j * q + q / 2, q, j, q / 2);
    assert(j * delta == x) by (nonlinear_arith)
        requires
            x == delta * j,
    ;
}

/// Without noise, an obfuscated gate with the parameters of `kind` computes the
/// plain gate: on noiseless encryptions of `a` and `b`, an encryption of `A`
/// whose zero-encryption rows are all zero, and a noiseless encryption of `d`,
/// the body of the accumulator lands in the half that bootstrapping maps to true
/// exactly when `kind(a, b)` is true. Here `B >= 2`, `B^l` divides `q`, and
/// `q / B^l` divides an eighth of `q`.
pub proof fn lemma_noiseless_gate(
    kind: GateKind,
    a: bool,
    b: bool,
    params: TgswParams,
    zeros: Seq<Seq<u32>>,
)
    requires
        params.wf(),
        params.decomp_base >= 2,
        NATIVE_MODULUS as int % params.plaintext_modulus() == 0,
        EIGHTH as int % (NATIVE_MODULUS as int / params.plaintext_modulus()) == 0,
        zeros.len() == (params.lwe_dimension + 1) * params.decomp_level,
        forall|r: int, j: int|
            0 <= r < zeros.len() && 0 <= j <= params.lwe_dimension ==> #[trigger] zeros[r][j] == 0,
    ensures
        ({
            let n = params.lwe_dimension as nat;
            let acc = raw_add(
                ext_product_raw(
                    tgsw_matrix(
                        gate_params(kind).0,
                        zeros,
                        params.decomp_base as nat,
                        params.decomp_level as nat,
                        n + 1,
                    ),
                    raw_add(noiseless(n, bit_phase(a) as u32), noiseless(n, bit_phase(b) as u32)),
                    params.decomp_base as nat,
                    params.decomp_level as nat,
                ),
                noiseless(n, gate_params(kind).1),
            );
            phase_is_true(acc[n as int] as int) == gate_truth(kind, a, b)
        }),
{
    let q = NATIVE_MODULUS as int;
    let n = params.lwe_dimension as nat;
    let base = params.decomp_base as nat;
    let l = params.decomp_level as nat;
    let p = params.plaintext_modulus();
    lemma_pow_positive(base as int, l);
    let (m, d) = gate_params(kind);
    let ea = bit_phase(a) as u32;
    let eb = bit_phase(b) as u32;
    let sum = raw_add(noiseless(n, ea), noiseless(n, eb));
    let x = sum[n as int];
    assert(x == add_mod(ea, eb));
    assert(x == 0 || x == 2 * EIGHTH || x == 6 * EIGHTH);
    let delta = q / p;
    let eighth = EIGHTH as int;
    lemma_fundamental_div_mod(q, p);
    assert(delta > 0) by (nonlinear_arith)
        requires
            q == p * delta + q % p,
            q % p == 0,
            q > 0,
            p > 0,
    ;
    lemma_fundamental_div_mod(eighth, delta);
    let e = eighth / delta;
    assert(eighth == delta * e);
    if x == 2 * EIGHTH {
        assert(x == (2 * e) * delta) by (nonlinear_arith)
            requires
                x == 2 * eighth,
                eighth == delta * e,
        ;
        lemma_mod_multiples_basic(2 * e, delta);
    } else if x == 6 * EIGHTH {
        assert(x == (6 * e) * delta) by (nonlinear_arith)
            requires
                x == 6 * eighth,
                eighth == delta * e,
        ;
        lemma_mod_multiples_basic(6 * e, delta);
    }
    assert(x as int % delta == 0);
    lemma_rescale_exact(x, p);
    lemma_noiseless_ext_product(m, params, zeros, sum, n as int);
    let mat = tgsw_matrix(m, zeros, base, l, n + 1);
    let ext = ext_product_raw(mat, sum, base, l);
    assert(m * delta * rescale(x, p as nat, q as nat) == m * x) by (nonlinear_arith)
        requires
            rescale(x, p as nat, q as nat) * delta == x,
    ;
    lemma_mod_bound(m * x, q);
    let acc_n = add_mod(ext[n as int], d);
    lemma_add_mod_noop(m * x, d as int, q);
    lemma_small_mod(d as nat, q as nat);
    // x is the sum of the two phases modulo q
    lemma_mul_mod_noop_right(m as int, ea + eb, q);
    lemma_add_mod_noop(m * (ea + eb), d as int, q);
    lemma_add_mod_noop(m * ((ea + eb) % q), d as int, q);
    lemma_mod_bound(acc_n as int, q);
    lemma_small_mod(acc_n as nat, q as nat);
    lemma_gate_phase_truth_table(kind, a, b);
}

/// Without noise, a TGSW encryption of `m ∈ {0, 1}` times an encryption of true,
/// with no offset added, lands in the half that bootstrapping maps to `m == 1`.
/// Here `B >= 2`, `B^l` divides `q`, and `q / B^l` divides an eighth of `q`.
pub proof fn lemma_noiseless_coefficient_times_true(m: u32, params: TgswParams, zeros: Seq<Seq<u32>>)
    requires
        m <= 1,
        params.wf(),
        params.decomp_base >= 2,
        NATIVE_MODULUS as int % params.plaintext_modulus() == 0,
        EIGHTH as int % (NATIVE_MODULUS as int / params.plaintext_modulus()) == 0,
        zeros.len() == (params.lwe_dimension + 1) * params.decomp_level,
        forall|r: int, j: int|
            0 <= r < zeros.len() && 0 <= j <= params.lwe_dimension ==> #[trigger] zeros[r][j] == 0,
    ensures
        ({
            let n = params.lwe_dimension as nat;
            let product = ext_product_raw(
                tgsw_matrix(m, zeros, params.decomp_base as nat, params.decomp_level as nat, n + 1),
                noiseless(n, bit_phase(true) as u32),
                params.decomp_base as nat,
                params.decomp_level as nat,
            );
            phase_is_true(product[n as int] as int) == (m == 1)
        }),
{
    let q = NATIVE_MODULUS as int;
    let n = params.lwe_dimension as nat;
    let p = params.plaintext_modulus();
    lemma_pow_positive(params.decomp_base as int, params.decomp_level as nat);
    let c = noiseless(n, bit_phase(true) as u32);
    let x = c[n as int];
    assert(x == EIGHTH);
    lemma_rescale_exact(x, p);
    lemma_noiseless_ext_product(m, params, zeros, c, n as int);
    let delta = q / p;
    assert(m * delta * rescale(x, p as nat, q as nat) == m * x) by (nonlinear_arith)
        requires
            rescale(x, p as nat, q as nat) * delta == x,
    ;
    lemma_small_mod((m * x) as nat, q as nat);
}

} // verus!
