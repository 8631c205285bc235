use ohlg::bench::{select_plaintexts, shortint_plaintexts, PATTERN_A, PATTERN_B};
use ohlg::bits::{byte_bits, corpus_bits};
use ohlg::gadget::GadgetCache;
use ohlg::gates::{
    gate_constants, ob_gate_1op, ob_gate_2op, GateAccumulator, GateKind, BUFFER_ADDEND, EIGHTH, NOT_ADDEND,
};
use ohlg::keys::{
    ClientKey, ClientKeyVersions, IntegerClientKeyV0, IntegerClientKeyVersions,
    IntegerCompressedServerKeyV0, IntegerCompressedServerKeyVersions, IntegerServerKey,
    IntegerServerKeyV0, IntegerServerKeyVersions, KeySwitchingKey, KeySwitchingKeyVersions,
    ServerKey, ServerKeyV0, ServerKeyVersions,
};
use ohlg::lwe::Ciphertext;
use ohlg::odm::{check_gate_params, odm_gate_count, odm_schedule, CascadeError, GateStep, Slot};
use ohlg::tgsw::{TgswCiphertext, TgswParams};

// A noiseless toy encryption: LWE dimension 1, zero mask, so the body is the phase.

fn encode(b: bool) -> u32 {
    if b {
        EIGHTH
    } else {
        7 * EIGHTH
    }
}

fn encrypt_phase(p: u32) -> Ciphertext {
    Ciphertext::from_raw(vec![0, p])
}

fn zero_rows(params: &TgswParams) -> Vec<Ciphertext> {
    let rows = (params.lwe_dimension + 1) * params.decomp_level;
    (0..rows).map(|_| encrypt_phase(0)).collect()
}

// stands in for the scheme's bootstrap: maps the phase back to a clean bit
fn bootstrap(acc: &GateAccumulator) -> Ciphertext {
    encrypt_phase(encode(decode(acc.data[1])))
}

fn decode(p: u32) -> bool {
    p != 0 && p < 4 * EIGHTH
}

fn decrypt(ct: &Ciphertext) -> bool {
    match ct {
        Ciphertext::Encrypted(c) => decode(c.data[1]),
        Ciphertext::Trivial(b) => *b,
    }
}

fn gate_params(kind: GateKind, params: &TgswParams, cache: &mut GadgetCache) -> (TgswCiphertext, Ciphertext) {
    let (a, d) = gate_constants(kind);
    (TgswCiphertext::new_encrypt(a, params, cache, &zero_rows(params)), encrypt_phase(d))
}

fn plain(kind: GateKind, a: bool, b: bool) -> bool {
    match kind {
        GateKind::Nand => !(a && b),
        GateKind::And => a && b,
        GateKind::Or => a || b,
        GateKind::Xnor => a == b,
    }
}

#[test]
fn gate_constants_in_eighths() {
    assert_eq!(gate_constants(GateKind::Nand), (1, 3 << 29));
    assert_eq!(gate_constants(GateKind::And), (1, 7 << 29));
    assert_eq!(gate_constants(GateKind::Or), (1, 1 << 29));
    assert_eq!(gate_constants(GateKind::Xnor), (2, 6 << 29));
}

#[test]
fn obfuscated_gates_match_truth_tables() {
    for (n, base, l) in [(1usize, 64u32, 2usize), (1, 16, 3)] {
        let params = TgswParams::new(n, base, l);
        let mut cache = GadgetCache::new();
        for kind in [GateKind::And, GateKind::Or, GateKind::Xnor, GateKind::Nand] {
            let (a, d) = gate_params(kind, &params, &mut cache);
            for (x, y) in [(false, false), (false, true), (true, false), (true, true)] {
                for _ in 0..100 {
                    let acc = ob_gate_2op(&encrypt_phase(encode(x)), &encrypt_phase(encode(y)), &a, &d, &params);
                    assert_eq!(decrypt(&bootstrap(&acc)), plain(kind, x, y), "{:?} {} {}", kind, x, y);
                }
            }
        }
    }
}

#[test]
fn ob_gate_2op_accumulator_value() {
    let params = TgswParams::new(1, 64, 2);
    let mut cache = GadgetCache::new();
    let (a, d) = gate_params(GateKind::Xnor, &params, &mut cache);
    let acc = ob_gate_2op(&encrypt_phase(encode(true)), &encrypt_phase(encode(true)), &a, &d, &params);
    // 2 * (1/8 + 1/8) + 6/8 = 10/8 = 2/8
    assert_eq!(acc.data, vec![0, 2 * EIGHTH]);
}

#[test]
fn one_operand_gate_buffer_and_not() {
    for x in [false, true] {
        let buffer = ob_gate_1op(&encrypt_phase(encode(x)), &encrypt_phase(BUFFER_ADDEND));
        assert_eq!(decrypt(&bootstrap(&buffer)), x);
        let not = ob_gate_1op(&encrypt_phase(encode(x)), &encrypt_phase(NOT_ADDEND));
        assert_eq!(decrypt(&bootstrap(&not)), !x);
    }
    let acc = ob_gate_1op(&Ciphertext::from_raw(vec![3, u32::MAX]), &Ciphertext::from_raw(vec![4, 2]));
    assert_eq!(acc.data, vec![7, 1]);
}

#[test]
fn coefficient_ciphertext_times_one() {
    let params = TgswParams::new(1, 64, 2);
    let mut cache = GadgetCache::new();
    for m in [0u32, 1] {
        let tgsw = TgswCiphertext::new_encrypt(m, &params, &mut cache, &zero_rows(&params));
        let c = encrypt_phase(4 * EIGHTH);
        let product = tgsw.ext_product(&c, &params);
        let expected = if m == 1 { 4 * EIGHTH } else { 0 };
        match product {
            Ciphertext::Encrypted(p) => assert_eq!(p.data, vec![0, expected]),
            Ciphertext::Trivial(_) => panic!("the product is a real encryption"),
        }
    }
}

fn run_odm(query: u8, corpus: &str) -> (bool, usize) {
    let params = TgswParams::new(1, 64, 2);
    let mut cache = GadgetCache::new();
    let bits = 8usize;
    let corpus_bytes: Vec<u8> = corpus.chars().map(|c| c as u8).collect();
    let search: Vec<Ciphertext> = byte_bits(query).into_iter().map(|b| encrypt_phase(encode(b))).collect();
    let chars: Vec<Vec<Ciphertext>> = corpus_bits(&corpus_bytes)
        .into_iter()
        .map(|bs| bs.into_iter().map(|b| encrypt_phase(encode(b))).collect())
        .collect();
    let schedule = odm_schedule(chars.len(), bits);
    let (mul, add): (Vec<TgswCiphertext>, Vec<Ciphertext>) =
        schedule.iter().map(|s| gate_params(s.kind, &params, &mut cache)).unzip();
    assert_eq!(check_gate_params(chars.len(), bits, mul.len(), add.len()), Ok(schedule.len()));
    let mut temp = Ciphertext::Trivial(false);
    let mut chr = Ciphertext::Trivial(false);
    let mut fin = Ciphertext::Trivial(false);
    let mut consumed = 0usize;
    for (k, step) in schedule.iter().enumerate() {
        let read = |s: Slot, temp: &Ciphertext, chr: &Ciphertext, fin: &Ciphertext| -> Ciphertext {
            let pick = match s {
                Slot::Search(b) => &search[b],
                Slot::Corpus(c, b) => &chars[c][b],
                Slot::Temp => temp,
                Slot::Char => chr,
                Slot::Final => fin,
            };
            encrypt_phase(match pick {
                Ciphertext::Encrypted(c) => c.data[1],
                Ciphertext::Trivial(_) => panic!("read of an empty slot"),
            })
        };
        let left = read(step.left, &temp, &chr, &fin);
        let right = read(step.right, &temp, &chr, &fin);
        let out = bootstrap(&ob_gate_2op(&left, &right, &mul[k], &add[k], &params));
        consumed += 1;
        match step.dest {
            Slot::Temp => temp = out,
            Slot::Char => chr = out,
            Slot::Final => fin = out,
            _ => panic!("gate writes an input slot"),
        }
    }
    (decrypt(&fin), consumed)
}

#[test]
fn odm_end_to_end_found() {
    let (found, consumed) = run_odm(b'C', "ABCDEFGHIJ");
    assert!(found);
    assert_eq!(consumed, 159);
}

#[test]
fn odm_end_to_end_not_found() {
    let (found, consumed) = run_odm(b'Z', "ABCDEFGHIJ");
    assert!(!found);
    assert_eq!(consumed, 159);
}

#[test]
fn odm_single_character_corpus() {
    assert!(run_odm(b'J', "J").0);
    assert!(!run_odm(b'K', "J").0);
    assert!(run_odm(b'J', "ABCDEFGHIJ").0);
    assert!(run_odm(b'A', "ABCDEFGHIJ").0);
}

#[test]
fn odm_gate_count_formula() {
    assert_eq!(odm_gate_count(10, 8), 159);
    assert_eq!(odm_gate_count(1, 8), 15);
    assert_eq!(odm_gate_count(1, 1), 1);
    assert_eq!(odm_gate_count(3, 2), 3 * 2 + 3 * 1 + 2);
}

#[test]
fn odm_schedule_order() {
    let s = odm_schedule(10, 8);
    assert_eq!(s.len(), 159);
    let count = |k: GateKind| s.iter().filter(|g| g.kind == k).count();
    assert_eq!(count(GateKind::Xnor), 80);
    assert_eq!(count(GateKind::And), 70);
    assert_eq!(count(GateKind::Or), 9);
    assert_eq!(
        s[0],
        GateStep { kind: GateKind::Xnor, left: Slot::Search(0), right: Slot::Corpus(0, 0), dest: Slot::Final }
    );
    assert_eq!(
        s[1],
        GateStep { kind: GateKind::Xnor, left: Slot::Search(1), right: Slot::Corpus(0, 1), dest: Slot::Temp }
    );
    assert_eq!(
        s[2],
        GateStep { kind: GateKind::And, left: Slot::Final, right: Slot::Temp, dest: Slot::Final }
    );
    assert_eq!(
        s[15],
        GateStep { kind: GateKind::Xnor, left: Slot::Search(0), right: Slot::Corpus(1, 0), dest: Slot::Char }
    );
    assert_eq!(
        s[30],
        GateStep { kind: GateKind::Or, left: Slot::Final, right: Slot::Char, dest: Slot::Final }
    );
    assert_eq!(s[158].kind, GateKind::Or);
    assert!(odm_schedule(0, 8).is_empty());
}

#[test]
fn gate_param_sequences_checked() {
    assert_eq!(check_gate_params(10, 8, 159, 159), Ok(159));
    assert_eq!(
        check_gate_params(10, 8, 159, 158),
        Err(CascadeError::Misaligned { multiplicative: 159, additive: 158 })
    );
    assert_eq!(
        check_gate_params(10, 8, 160, 160),
        Err(CascadeError::WrongCount { expected: 159, found: 160 })
    );
}

#[test]
fn byte_bits_least_significant_first() {
    assert_eq!(byte_bits(b'C'), vec![true, true, false, false, false, false, true, false]);
    assert_eq!(byte_bits(0), vec![false; 8]);
    assert_eq!(byte_bits(255), vec![true; 8]);
    let c = corpus_bits(b"AB");
    assert_eq!(c.len(), 2);
    assert_eq!(c[1], vec![false, true, false, false, false, false, true, false]);
}

#[test]
fn key_versions_upgrade() {
    let v0 = ServerKeyVersions::V0(ServerKeyV0 {
        integer_key: IntegerServerKey {
            key: vec![1, 2],
            wopbs_key: None,
            cpk_key_switching_key_material: None,
            compression_key: None,
            decompression_key: None,
        },
    });
    let current: ServerKey = v0.into_current();
    assert_eq!(current.key.key, vec![1, 2]);

    let k = IntegerServerKeyVersions::V0(IntegerServerKeyV0 { key: vec![3], wopbs_key: Some(vec![4]) })
        .into_current();
    assert_eq!(k.key, vec![3]);
    assert_eq!(k.wopbs_key, Some(vec![4]));
    assert!(k.cpk_key_switching_key_material.is_none());
    assert!(k.compression_key.is_none());
    assert!(k.decompression_key.is_none());

    let k = IntegerCompressedServerKeyVersions::V0(IntegerCompressedServerKeyV0 { key: vec![5] }).into_current();
    assert_eq!(k.key, vec![5]);
    assert!(k.compression_key.is_none());

    let k = IntegerClientKeyVersions::V0(IntegerClientKeyV0 { key: vec![6], wopbs_block_parameters: None })
        .into_current();
    assert_eq!(k.key, vec![6]);
    assert!(k.dedicated_compact_private_key.is_none());

    assert_eq!(ClientKeyVersions::V0(ClientKey { material: vec![7] }).into_current().material, vec![7]);
    assert_eq!(KeySwitchingKeyVersions::V0(KeySwitchingKey { material: vec![8] }).into_current().material, vec![8]);
}

#[test]
fn radix_benchmark_operands() {
    assert_eq!(select_plaintexts(0, 3), (0, 0));
    assert_eq!(select_plaintexts(1, 1), (1, 1));
    assert_eq!(select_plaintexts(1, 2), (1, 3));
    assert_eq!(select_plaintexts(2, 4), (0x55, 0x33));
    assert_eq!(select_plaintexts(4, 4), (0xAA55, 0xCC33));
    assert_eq!(select_plaintexts(4, 16), (PATTERN_A, PATTERN_B));
    assert_eq!(select_plaintexts(8, 16), (PATTERN_A, PATTERN_B));
}

#[test]
fn shortint_benchmark_operands() {
    assert_eq!(shortint_plaintexts(0), (0, 0));
    assert_eq!(shortint_plaintexts(2), (3, 2));
    assert_eq!(shortint_plaintexts(4), (15, 8));
}
