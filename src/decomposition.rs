use vstd::prelude::*;
use vstd::arithmetic::power::{pow, lemma_pow_positive};
use vstd::arithmetic::div_mod::{lemma_div_denominator, lemma_breakdown, lemma_small_mod};

verus! {

/// The `l` base-`base` digits of `v`, most significant first: digit `i` is
/// `⌊v / base^(l-1-i)⌋ mod base`.
pub open spec fn digits(v: nat, base: nat, l: nat) -> Seq<u32> {
    Seq::new(l, |i: int| ((v as int / pow(base as int, (l - 1 - i) as nat)) % base as int) as u32)
}

/// The number that a most-significant-first digit sequence stands for:
/// `Σ s[i]·base^(len-1-i)`, evaluated by Horner's rule.
pub open spec fn digits_value(s: Seq<u32>, base: nat) -> int
    decreases s.len(),
{
    if s.len() == 0 {
        0
    } else {
        digits_value(s.drop_last(), base) * base + s.last()
    }
}

/// The digits of every element of `vs`, concatenated in the order of the elements.
pub open spec fn vec_digits(vs: Seq<u32>, base: nat, l: nat) -> Seq<u32>
    decreases vs.len(),
{
    if vs.len() == 0 {
        Seq::empty()
    } else {
        vec_digits(vs.drop_last(), base, l) + digits(vs.last() as nat, base, l)
    }
}

/// One more factor of `b`.
pub proof fn lemma_pow_succ(b: int, k: nat)
    ensures
        pow(b, k + 1) == b * pow(b, k),
{
    reveal(pow);
}

/// Dividing by `base` once more moves one digit further.
proof fn lemma_div_step(v: nat, base: nat, k: nat)
    requires
        base > 0,
    ensures
        (v as int / pow(base as int, k)) / base as int == v as int / pow(base as int, k + 1),
{
    lemma_pow_positive(base as int, k);
    lemma_div_denominator(v as int, pow(base as int, k), base as int);
    lemma_pow_succ(base as int, k);
    assert(pow(base as int, k) * base == base * pow(base as int, k)) by (nonlinear_arith);
}

/// Splitting off the least significant digit.
proof fn lemma_digits_drop_last(v: nat, base: nat, l: nat)
    requires
        0 < base <= u32::MAX,
        l > 0,
    ensures
        digits(v, base, l).drop_last() == digits(v / base, base, (l - 1) as nat),
        digits(v, base, l).last() == (v % base) as u32,
{
    let a = digits(v, base, l).drop_last();
    let b = digits(v / base, base, (l - 1) as nat);
    assert forall|i: int| 0 <= i < a.len() implies a[i] == b[i] by {
        let e = (l - 2 - i) as nat;
        lemma_pow_positive(base as int, e);
        lemma_pow_succ(base as int, e);
        lemma_div_denominator(v as int, base as int, pow(base as int, e));
        lemma_div_denominator(v as int, pow(base as int, e), base as int);
        assert(pow(base as int, e) * base == base * pow(base as int, e)) by (nonlinear_arith);
    }
    assert(a =~= b);
    assert(pow(base as int, 0) == 1) by {
        reveal(pow);
    }
}

/// Decomposing a value below `base^l` and recombining the digits gives the value back.
pub proof fn lemma_decompose_round_trip(v: nat, base: nat, l: nat)
    requires
        0 < base <= u32::MAX,
        v < pow(base as int, l),
    ensures
        digits(v, base, l).len() == l,
        digits_value(digits(v, base, l), base) == v,
{
    lemma_digits_value_mod(v, base, l);
    lemma_pow_positive(base as int, l);
    lemma_small_mod(v, pow(base as int, l) as nat);
}

/// Recombining the `l` digits of any `v` gives `v mod base^l`.
pub proof fn lemma_digits_value_mod(v: nat, base: nat, l: nat)
    requires
        0 < base <= u32::MAX,
    ensures
        digits_value(digits(v, base, l), base) == v as int % pow(base as int, l),
    decreases l,
{
    if l == 0 {
        assert(pow(base as int, 0) == 1) by {
            reveal(pow);
        }
        assert(v as int % 1 == 0);
    } else {
        let lm = (l - 1) as nat;
        let p = pow(base as int, lm);
        lemma_digits_drop_last(v, base, l);
        lemma_digits_value_mod(v / base, base, lm);
        lemma_pow_succ(base as int, lm);
        lemma_pow_positive(base as int, lm);
        lemma_breakdown(v as int, base as int, p);
        assert(((v / base) as int % p) * base == base * ((v as int / base as int) % p)) by (nonlinear_arith);
    }
}

/// Digit `t` of element `c` stands at place `c·l + t` of the concatenation.
pub proof fn lemma_vec_digits_index(vs: Seq<u32>, base: nat, l: nat, c: int, t: int)
    requires
        0 <= c < vs.len(),
        0 <= t < l,
    ensures
        c * l + t < vs.len() * l,
        vec_digits(vs, base, l)[c * l + t] == digits(vs[c] as nat, base, l)[t],
    decreases vs.len(),
{
    let init = vs.drop_last();
    lemma_vec_digits_len(init, base, l);
    assert(c * l + t < (c + 1) * l) by (nonlinear_arith)
        requires
            t < l,
    ;
    assert((c + 1) * l <= vs.len() * l) by (nonlinear_arith)
        requires
            c + 1 <= vs.len(),
    ;
    if c < vs.len() - 1 {
        lemma_vec_digits_index(init, base, l, c, t);
        assert((c + 1) * l <= init.len() * l) by (nonlinear_arith)
            requires
                c + 1 <= init.len(),
        ;
        assert(init[c] == vs[c]);
    } else {
        assert(c * l == init.len() * l);
    }
}

/// `vec_digits` gives `l` digits for each element.
pub proof fn lemma_vec_digits_len(vs: Seq<u32>, base: nat, l: nat)
    ensures
        vec_digits(vs, base, l).len() == vs.len() * l,
    decreases vs.len(),
{
    if vs.len() > 0 {
        lemma_vec_digits_len(vs.drop_last(), base, l);
        assert((vs.len() - 1) * l + l == vs.len() * l) by (nonlinear_arith);
    }
}

/// Splits `n` into `l` digits in base `b`, most significant digit first.
pub fn decompose(n: u32, b: u32, l: usize) -> (r: Vec<u32>)
    requires
        b > 0,
    ensures
        r@ == digits(n as nat, b as nat, l as nat),
{
    // least significant digit first
    let mut low_first: Vec<u32> = Vec::with_capacity(l);
    let mut x: u32 = n;
    let mut k: usize = 0;
    proof {
        assert(pow(b as int, 0) == 1) by {
            reveal(pow);
        }
    }
    while k < l
        invariant
            b > 0,
            k <= l,
            low_first@.len() == k,
            x as int == n as int / pow(b as int, k as nat),
            forall|t: int|
                0 <= t < k ==> low_first@[t] == ((n as int / pow(b as int, t as nat)) % b as int) as u32,
        decreases l - k,
    {
        low_first.push(x % b);
        proof {
            lemma_div_step(n as nat, b as nat, k as nat);
        }
        x = x / b;
        k = k + 1;
    }
    let mut out: Vec<u32> = Vec::with_capacity(l);
    let mut i: usize = 0;
    while i < l
        invariant
            i <= l,
            low_first@.len() == l,
            out@.len() == i,
            forall|t: int| 0 <= t < i ==> out@[t] == low_first@[l - 1 - t],
        decreases l - i,
    {
        out.push(low_first[l - 1 - i]);
        i = i + 1;
    }
    assert(out@ =~= digits(n as nat, b as nat, l as nat));
    out
}

/// Splits every element of `v` into `l` digits in base `b` and concatenates the
/// results in the order of the elements.
pub fn vec_decompose(v: &[u32], b: u32, l: usize) -> (r: Vec<u32>)
    requires
        b > 0,
    ensures
        r@ == vec_digits(v@, b as nat, l as nat),
        r@.len() == v@.len() * l,
{
    let mut out: Vec<u32> = Vec::new();
    let mut i: usize = 0;
    while i < v.len()
        invariant
            b > 0,
            i <= v@.len(),
            out@ == vec_digits(v@.subrange(0, i as int), b as nat, l as nat),
        decreases v@.len() - i,
    {
        let mut d = decompose(v[i], b, l);
        proof {
            assert(v@.subrange(0, i + 1).drop_last() =~= v@.subrange(0, i as int));
        }
        out.append(&mut d);
        i = i + 1;
    }
    proof {
        assert(v@.subrange(0, v@.len() as int) =~= v@);
        lemma_vec_digits_len(v@, b as nat, l as nat);
    }
    out
}

} // verus!
