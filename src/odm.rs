use vstd::prelude::*;
use crate::gates::{gate_truth, GateKind};

verus! {

/// Where a gate of the matching cascade reads or writes a ciphertext.
#[derive(Clone, Copy, Debug, PartialEq, Eq, Structural)]
pub enum Slot {
    /// Bit `b` of the search character.
    Search(usize),
    /// Bit `b` of corpus character `c`, as `Corpus(c, b)`.
    Corpus(usize, usize),
    /// The XNOR of the current bit pair.
    Temp,
    /// The running AND of the current character, from the second character on.
    Char,
    /// The running OR over the characters; the first character is accumulated here
    /// directly.
    Final,
}

/// One obfuscated gate of the cascade: `dest := kind(left, right)`. A step at
/// position `k` of a schedule consumes the `k`-th entry of both gate-parameter
/// sequences.
#[derive(Clone, Copy, Debug, PartialEq, Eq, Structural)]
pub struct GateStep {
    pub kind: GateKind,
    pub left: Slot,
    pub right: Slot,
    pub dest: Slot,
}

/// The gates for bit `b` of corpus character `c`, accumulated into `acc`: the
/// first bit's XNOR seeds `acc`; every later bit is XNORed into `Temp` and ANDed
/// into `acc`.
pub open spec fn bit_steps(c: nat, b: nat, acc: Slot) -> Seq<GateStep> {
    if b == 0 {
        seq![
            GateStep {
                kind: GateKind::Xnor,
                left: Slot::Search(0),
                right: Slot::Corpus(c as usize, 0),
                dest: acc,
            },
        ]
    } else {
        seq![
            GateStep {
                kind: GateKind::Xnor,
                left: Slot::Search(b as usize),
                right: Slot::Corpus(c as usize, b as usize),
                dest: Slot::Temp,
            },
            GateStep { kind: GateKind::And, left: acc, right: Slot::Temp, dest: acc },
        ]
    }
}

/// The gates for the first `k` bits of corpus character `c`.
pub open spec fn char_steps(c: nat, k: nat, acc: Slot) -> Seq<GateStep>
    decreases k,
{
    if k == 0 {
        Seq::empty()
    } else {
        char_steps(c, (k - 1) as nat, acc) + bit_steps(c, (k - 1) as nat, acc)
    }
}

/// ORs a character's result into the final result.
pub open spec fn or_step() -> GateStep {
    GateStep { kind: GateKind::Or, left: Slot::Final, right: Slot::Char, dest: Slot::Final }
}

/// The whole cascade over the first `n` corpus characters of `bits` bits each.
pub open spec fn odm_steps(n: nat, bits: nat) -> Seq<GateStep>
    decreases n,
{
    if n == 0 {
        Seq::empty()
    } else if n == 1 {
        char_steps(0, bits, Slot::Final)
    } else {
        odm_steps((n - 1) as nat, bits) + char_steps((n - 1) as nat, bits, Slot::Char) + seq![
            or_step(),
        ]
    }
}

/// `N·B` XNOR gates, `N·(B−1)` AND gates and `N−1` OR gates.
pub open spec fn gate_count(n: nat, bits: nat) -> int {
    n * bits + n * (bits - 1) + (n - 1)
}

proof fn lemma_char_steps_len(c: nat, k: nat, acc: Slot)
    requires
        k >= 1,
    ensures
        char_steps(c, k, acc).len() == 2 * k - 1,
    decreases k,
{
    if k > 1 {
        lemma_char_steps_len(c, (k - 1) as nat, acc);
    } else {
        assert(char_steps(c, 0, acc).len() == 0);
    }
}

/// A cascade over `N >= 1` characters of `B >= 1` bits has exactly
/// `N·B + N·(B−1) + (N−1)` gates, so it consumes exactly that many entries of
/// each gate-parameter sequence.
pub proof fn lemma_schedule_gate_count(n: nat, bits: nat)
    requires
        n >= 1,
        bits >= 1,
    ensures
        odm_steps(n, bits).len() == gate_count(n, bits),
    decreases n,
{
    lemma_char_steps_len((n - 1) as nat, bits, Slot::Char);
    if n > 1 {
        lemma_schedule_gate_count((n - 1) as nat, bits);
        assert(gate_count(n, bits) == gate_count((n - 1) as nat, bits) + 2 * bits - 1 + 1)
            by (nonlinear_arith)
            requires
                n >= 2,
        ;
    } else {
        lemma_char_steps_len(0, bits, Slot::Final);
        assert(gate_count(1, bits) == 2 * bits - 1) by (nonlinear_arith);
    }
}

/// The order in which the server evaluates the gates of a direct-matching
/// cascade over `n_chars` corpus characters of `bits` bits each, and in which
/// the client lays out its parameter pairs.
pub fn odm_schedule(n_chars: usize, bits: usize) -> (r: Vec<GateStep>)
    requires
        bits >= 1,
    ensures
        r@ == odm_steps(n_chars as nat, bits as nat),
{
    let mut steps: Vec<GateStep> = Vec::new();
    let mut c: usize = 0;
    while c < n_chars
        invariant
            bits >= 1,
            c <= n_chars,
            steps@ == odm_steps(c as nat, bits as nat),
        decreases n_chars - c,
    {
        let acc = if c == 0 {
            Slot::Final
        } else {
            Slot::Char
        };
        let ghost before = steps@;
        let mut b: usize = 0;
        while b < bits
            invariant
                b <= bits,
                steps@ == before + char_steps(c as nat, b as nat, acc),
            decreases bits - b,
        {
            let ghost mid = steps@;
            if b == 0 {
                steps.push(
                    GateStep {
                        kind: GateKind::Xnor,
                        left: Slot::Search(0),
                        right: Slot::Corpus(c, 0),
                        dest: acc,
                    },
                );
            } else {
                steps.push(
                    GateStep {
                        kind: GateKind::Xnor,
                        left: Slot::Search(b),
                        right: Slot::Corpus(c, b),
                        dest: Slot::Temp,
                    },
                );
                steps.push(GateStep { kind: GateKind::And, left: acc, right: Slot::Temp, dest: acc });
            }
            assert(steps@ =~= mid + bit_steps(c as nat, b as nat, acc));
            assert(before + char_steps(c as nat, (b + 1) as nat, acc) =~= mid + bit_steps(
                c as nat,
                b as nat,
                acc,
            ));
            b = b + 1;
        }
        if c > 0 {
            steps.push(
                GateStep { kind: GateKind::Or, left: Slot::Final, right: Slot::Char, dest: Slot::Final },
            );
            assert(steps@ =~= odm_steps((c + 1) as nat, bits as nat));
        } else {
            assert(steps@ =~= odm_steps((c + 1) as nat, bits as nat));
        }
        c = c + 1;
    }
    steps
}

/// The cleartext values of the working slots `(Temp, Char, Final)`.
pub type PlainSlots = (bool, bool, bool);

/// The cleartext bit a slot holds, for the search bits `query` and the corpus
/// bits `corpus`.
pub open spec fn read_slot(s: Slot, st: PlainSlots, query: Seq<bool>, corpus: Seq<Seq<bool>>) -> bool {
    match s {
        Slot::Search(b) => query[b as int],
        Slot::Corpus(c, b) => corpus[c as int][b as int],
        Slot::Temp => st.0,
        Slot::Char => st.1,
        Slot::Final => st.2,
    }
}

/// The working slots after `v` is written to `s`.
pub open spec fn write_slot(s: Slot, v: bool, st: PlainSlots) -> PlainSlots {
    match s {
        Slot::Temp => (v, st.1, st.2),
        Slot::Char => (st.0, v, st.2),
        Slot::Final => (st.0, st.1, v),
        _ => st,
    }
}

/// One step evaluated on cleartext bits.
pub open spec fn apply_step(g: GateStep, st: PlainSlots, query: Seq<bool>, corpus: Seq<Seq<bool>>) -> PlainSlots {
    write_slot(
        g.dest,
        gate_truth(g.kind, read_slot(g.left, st, query, corpus), read_slot(g.right, st, query, corpus)),
        st,
    )
}

/// A sequence of steps evaluated in order on cleartext bits.
pub open spec fn run_steps(
    steps: Seq<GateStep>,
    st: PlainSlots,
    query: Seq<bool>,
    corpus: Seq<Seq<bool>>,
) -> PlainSlots
    decreases steps.len(),
{
    if steps.len() == 0 {
        st
    } else {
        apply_step(steps.last(), run_steps(steps.drop_last(), st, query, corpus), query, corpus)
    }
}

proof fn lemma_run_concat(a: Seq<GateStep>, b: Seq<GateStep>, st: PlainSlots, query: Seq<bool>, corpus: Seq<Seq<bool>>)
    ensures
        run_steps(a + b, st, query, corpus) == run_steps(b, run_steps(a, st, query, corpus), query, corpus),
    decreases b.len(),
{
    if b.len() == 0 {
        assert(a + b =~= a);
    } else {
        assert((a + b).drop_last() =~= a + b.drop_last());
        assert((a + b).last() == b.last());
        lemma_run_concat(a, b.drop_last(), st, query, corpus);
    }
}

/// The first `k` bits of corpus character `c` equal those of the query.
pub open spec fn prefix_matches(query: Seq<bool>, corpus: Seq<Seq<bool>>, c: int, k: int) -> bool {
    forall|b: int| 0 <= b < k ==> query[b] == corpus[c][b]
}

/// After the steps of the first `k` bits of character `c`, the accumulator holds
/// whether those bits match the query; accumulating into `Char` leaves `Final`
/// as it was.
proof fn lemma_char_steps_value(
    c: nat,
    k: nat,
    acc: Slot,
    st: PlainSlots,
    query: Seq<bool>,
    corpus: Seq<Seq<bool>>,
)
    requires
        1 <= k,
        c <= usize::MAX,
        k <= usize::MAX,
        acc == Slot::Final || acc == Slot::Char,
    ensures
        read_slot(acc, run_steps(char_steps(c, k, acc), st, query, corpus), query, corpus)
            == prefix_matches(query, corpus, c as int, k as int),
        acc == Slot::Char ==> run_steps(char_steps(c, k, acc), st, query, corpus).2 == st.2,
    decreases k,
{
    let km = (k - 1) as nat;
    assert(char_steps(c, k, acc) == char_steps(c, km, acc) + bit_steps(c, km, acc));
    lemma_run_concat(char_steps(c, km, acc), bit_steps(c, km, acc), st, query, corpus);
    if k == 1 {
        assert(char_steps(c, 0, acc) =~= Seq::<GateStep>::empty());
        let one = bit_steps(c, 0, acc);
        assert(one.drop_last() =~= Seq::<GateStep>::empty());
        assert(prefix_matches(query, corpus, c as int, 1) == (query[0] == corpus[c as int][0]));
    } else {
        lemma_char_steps_value(c, km, acc, st, query, corpus);
        let mid = run_steps(char_steps(c, km, acc), st, query, corpus);
        let two = bit_steps(c, km, acc);
        assert(two.drop_last().drop_last() =~= Seq::<GateStep>::empty());
        let after_xnor = apply_step(two[0], mid, query, corpus);
        let single = two.drop_last();
        assert(single.len() == 1 && single.last() == two[0]);
        assert(run_steps(single.drop_last(), mid, query, corpus) == mid);
        assert(run_steps(single, mid, query, corpus) == after_xnor);
        assert(two.last() == two[1]);
        assert(run_steps(two, mid, query, corpus) == apply_step(two[1], after_xnor, query, corpus));
        assert(after_xnor.0 == (query[km as int] == corpus[c as int][km as int]));
        assert(prefix_matches(query, corpus, c as int, k as int) == (prefix_matches(
            query,
            corpus,
            c as int,
            km as int,
        ) && query[km as int] == corpus[c as int][km as int]));
    }
}

/// Evaluated on cleartext bits, the cascade over `n >= 1` corpus characters of
/// `bits >= 1` bits each ends with `Final` true exactly when some corpus
/// character equals the query.
pub proof fn lemma_cascade_finds_match(
    n: nat,
    bits: nat,
    st: PlainSlots,
    query: Seq<bool>,
    corpus: Seq<Seq<bool>>,
)
    requires
        1 <= n <= usize::MAX,
        1 <= bits <= usize::MAX,
        query.len() == bits,
        corpus.len() == n,
        forall|c: int| 0 <= c < n ==> (#[trigger] corpus[c]).len() == bits,
    ensures
        run_steps(odm_steps(n, bits), st, query, corpus).2 == exists|c: int|
            0 <= c < n && #[trigger] corpus[c] == query,
    decreases n,
{
    let last = (n - 1) as int;
    assert(prefix_matches(query, corpus, last, bits as int) == (corpus[last] == query)) by {
        if prefix_matches(query, corpus, last, bits as int) {
            assert(corpus[last] =~= query);
        }
    }
    if n == 1 {
        lemma_char_steps_value(0, bits, Slot::Final, st, query, corpus);
        if run_steps(odm_steps(n, bits), st, query, corpus).2 {
            assert(corpus[0] == query);
        }
    } else {
        let nm = (n - 1) as nat;
        let head = odm_steps(nm, bits);
        let body = char_steps(nm, bits, Slot::Char);
        lemma_run_concat(head + body, seq![or_step()], st, query, corpus);
        lemma_run_concat(head, body, st, query, corpus);
        let first = run_steps(head, st, query, corpus);
        lemma_cascade_finds_match(
            nm,
            bits,
            st,
            query,
            corpus.subrange(0, nm as int),
        );
        assert forall|c: int| 0 <= c < nm implies corpus.subrange(0, nm as int)[c] == corpus[c] by {}
        lemma_steps_read_prefix(head, st, query, corpus, corpus.subrange(0, nm as int), nm, bits);
        lemma_char_steps_value(nm, bits, Slot::Char, first, query, corpus);
        let second = run_steps(body, first, query, corpus);
        assert(seq![or_step()].drop_last() =~= Seq::<GateStep>::empty());
        let result = run_steps(odm_steps(n, bits), st, query, corpus);
        assert(odm_steps(n, bits) == head + body + seq![or_step()]);
        assert(run_steps(head + body, st, query, corpus) == second);
        assert(seq![or_step()].last() == or_step());
        assert(run_steps(seq![or_step()].drop_last(), second, query, corpus) == second);
        assert(result == apply_step(or_step(), second, query, corpus));
        assert(result.2 == (first.2 || second.1));
        if result.2 {
            if first.2 {
                let c = choose|c: int| 0 <= c < nm && #[trigger] corpus.subrange(0, nm as int)[c] == query;
                assert(corpus[c] == query);
            } else {
                assert(corpus[last] == query);
            }
        } else {
            assert forall|c: int| 0 <= c < n implies #[trigger] corpus[c] != query by {
                if c < nm {
                    assert(corpus.subrange(0, nm as int)[c] == corpus[c]);
                }
            }
        }
    }
}

/// The steps for the first `n` characters read only those characters, so they
/// give the same result on any corpus that agrees on them.
proof fn lemma_steps_read_prefix(
    steps: Seq<GateStep>,
    st: PlainSlots,
    query: Seq<bool>,
    corpus: Seq<Seq<bool>>,
    other: Seq<Seq<bool>>,
    n: nat,
    bits: nat,
)
    requires
        steps == odm_steps(n, bits),
        n <= usize::MAX,
        bits <= usize::MAX,
        n <= other.len(),
        n <= corpus.len(),
        forall|c: int| 0 <= c < n ==> corpus[c] == other[c],
    ensures
        run_steps(steps, st, query, corpus) == run_steps(steps, st, query, other),
{
    lemma_odm_steps_corpus_range(n, bits);
    lemma_run_same_reads(steps, st, query, corpus, other, n);
}

/// Every corpus slot of the steps for the first `n` characters names one of them.
proof fn lemma_odm_steps_corpus_range(n: nat, bits: nat)
    requires
        n <= usize::MAX,
        bits <= usize::MAX,
    ensures
        forall|k: int| 0 <= k < odm_steps(n, bits).len() ==> reads_below(#[trigger] odm_steps(n, bits)[k], n),
    decreases n,
{
    if n == 1 {
        lemma_char_steps_corpus_range(0, bits, Slot::Final, n);
    } else if n > 1 {
        let nm = (n - 1) as nat;
        lemma_odm_steps_corpus_range(nm, bits);
        lemma_char_steps_corpus_range(nm, bits, Slot::Char, n);
        let head = odm_steps(nm, bits);
        let body = char_steps(nm, bits, Slot::Char);
        assert forall|k: int| 0 <= k < odm_steps(n, bits).len() implies reads_below(
            #[trigger] odm_steps(n, bits)[k],
            n,
        ) by {
            if k < head.len() {
                assert(odm_steps(n, bits)[k] == head[k]);
                assert(reads_below(head[k], nm));
            } else if k < head.len() + body.len() {
                assert(odm_steps(n, bits)[k] == body[k - head.len()]);
            }
        }
    }
}

/// The corpus slots a step reads name characters below `n`.
pub open spec fn reads_below(g: GateStep, n: nat) -> bool {
    &&& (g.left matches Slot::Corpus(c, _) ==> c < n)
    &&& (g.right matches Slot::Corpus(c, _) ==> c < n)
}

proof fn lemma_char_steps_corpus_range(c: nat, k: nat, acc: Slot, n: nat)
    requires
        acc == Slot::Final || acc == Slot::Char,
        c < n,
        c <= usize::MAX,
        k <= usize::MAX,
    ensures
        forall|i: int| 0 <= i < char_steps(c, k, acc).len() ==> reads_below(#[trigger] char_steps(c, k, acc)[i], n),
    decreases k,
{
    if k > 0 {
        let km = (k - 1) as nat;
        lemma_char_steps_corpus_range(c, km, acc, n);
        let head = char_steps(c, km, acc);
        let tail = bit_steps(c, km, acc);
        assert(char_steps(c, k, acc) == head + tail);
        assert forall|i: int| 0 <= i < char_steps(c, k, acc).len() implies reads_below(
            #[trigger] char_steps(c, k, acc)[i],
            n,
        ) by {
            if i < head.len() {
                assert(char_steps(c, k, acc)[i] == head[i]);
            } else {
                assert(char_steps(c, k, acc)[i] == tail[i - head.len()]);
                assert((c as usize) as nat == c);
                assert(reads_below(tail[0], n));
                if tail.len() > 1 {
                    assert(reads_below(tail[1], n));
                }
            }
        }
    }
}

proof fn lemma_run_same_reads(
    steps: Seq<GateStep>,
    st: PlainSlots,
    query: Seq<bool>,
    corpus: Seq<Seq<bool>>,
    other: Seq<Seq<bool>>,
    n: nat,
)
    requires
        n <= other.len(),
        n <= corpus.len(),
        forall|c: int| 0 <= c < n ==> corpus[c] == other[c],
        forall|k: int| 0 <= k < steps.len() ==> reads_below(#[trigger] steps[k], n),
    ensures
        run_steps(steps, st, query, corpus) == run_steps(steps, st, query, other),
    decreases steps.len(),
{
    if steps.len() > 0 {
        let init = steps.drop_last();
        assert forall|k: int| 0 <= k < init.len() implies reads_below(#[trigger] init[k], n) by {
            assert(init[k] == steps[k]);
        }
        lemma_run_same_reads(init, st, query, corpus, other, n);
        assert(reads_below(steps[steps.len() - 1], n));
    }
}

/// Why two parameter sequences cannot drive a cascade.
#[derive(Clone, Copy, Debug, PartialEq, Eq, Structural)]
pub enum CascadeError {
    /// The multiplicative and additive sequences differ in length.
    Misaligned { multiplicative: usize, additive: usize },
    /// The sequences are aligned but their length is not the cascade's gate count.
    WrongCount { expected: usize, found: usize },
}

/// Checks the two gate-parameter sequences, of lengths `n_mul` and `n_add`,
/// against a cascade over `n_chars` characters of `bits` bits each.
pub fn check_gate_params(n_chars: usize, bits: usize, n_mul: usize, n_add: usize) -> (r: Result<
    usize,
    CascadeError,
>)
    requires
        n_chars >= 1,
        bits >= 1,
        gate_count(n_chars as nat, bits as nat) <= usize::MAX,
    ensures
        n_mul != n_add ==> r == Err::<usize, CascadeError>(
            CascadeError::Misaligned { multiplicative: n_mul, additive: n_add },
        ),
        n_mul == n_add && n_mul != gate_count(n_chars as nat, bits as nat) ==> r == Err::<
            usize,
            CascadeError,
        >(
            CascadeError::WrongCount {
                expected: gate_count(n_chars as nat, bits as nat) as usize,
                found: n_mul,
            },
        ),
        n_mul == n_add && n_mul == gate_count(n_chars as nat, bits as nat) ==> r == Ok::<
            usize,
            CascadeError,
        >(n_mul),
{
    let expected = odm_gate_count(n_chars, bits);
    if n_mul != n_add {
        Err(CascadeError::Misaligned { multiplicative: n_mul, additive: n_add })
    } else if n_mul != expected {
        Err(CascadeError::WrongCount { expected, found: n_mul })
    } else {
        Ok(n_mul)
    }
}

/// The number of gates, and of gate-parameter pairs, of a cascade over
/// `n_chars` characters of `bits` bits each.
pub fn odm_gate_count(n_chars: usize, bits: usize) -> (r: usize)
    requires
        n_chars >= 1,
        bits >= 1,
        gate_count(n_chars as nat, bits as nat) <= usize::MAX,
    ensures
        r == gate_count(n_chars as nat, bits as nat),
{
    assert(n_chars * bits <= gate_count(n_chars as nat, bits as nat)) by (nonlinear_arith)
        requires
            n_chars >= 1,
            bits >= 1,
    ;
    assert(n_chars * (bits - 1) <= gate_count(n_chars as nat, bits as nat)) by (nonlinear_arith)
        requires
            n_chars >= 1,
            bits >= 1,
    ;
    let xnor_gates: usize = n_chars * bits;
    let and_gates: usize = n_chars * (bits - 1);
    xnor_gates + and_gates + (n_chars - 1)
}

} // verus!
