use ohlg::decomposition::{decompose, vec_decompose};
use ohlg::gadget::{GadgetCache, GadgetMatrix};
use ohlg::lwe::{raw_vec_add, Ciphertext, NATIVE_MODULUS};
use ohlg::tgsw::{base_power, vec_scale, TgswCiphertext, TgswParams};

const Q: u64 = 1 << 32;

fn noiseless_zero_rows(n: usize, l: usize) -> Vec<Ciphertext> {
    (0..(n + 1) * l).map(|_| Ciphertext::from_raw(vec![0u32; n + 1])).collect()
}

fn raw(ct: &Ciphertext) -> Vec<u32> {
    match ct {
        Ciphertext::Encrypted(c) => c.data.clone(),
        Ciphertext::Trivial(_) => panic!("expected a real encryption"),
    }
}

#[test]
fn decompose_most_significant_first() {
    assert_eq!(decompose(0x1234, 16, 4), vec![1, 2, 3, 4]);
    assert_eq!(decompose(4095, 64, 2), vec![63, 63]);
    assert_eq!(decompose(4096, 64, 2), vec![0, 0]);
    assert_eq!(decompose(5, 2, 0), Vec::<u32>::new());
    assert_eq!(decompose(u32::MAX, 16, 8), vec![15; 8]);
}

#[test]
fn decompose_round_trip_below_modulus() {
    for &(base, l) in &[(2u32, 10usize), (16, 3), (64, 2), (10, 4)] {
        let p = (base as u64).pow(l as u32);
        for v in (0..p).step_by(7) {
            let d = decompose(v as u32, base, l);
            assert_eq!(d.len(), l);
            let back = d.iter().fold(0u64, |acc, &x| acc * base as u64 + x as u64);
            assert_eq!(back, v);
        }
    }
}

#[test]
fn vec_decompose_concatenates_in_order() {
    assert_eq!(vec_decompose(&[5, 7], 4, 2), vec![1, 1, 1, 3]);
    assert_eq!(vec_decompose(&[], 4, 2), Vec::<u32>::new());
    assert_eq!(vec_decompose(&[512, 0, 4095], 64, 2), vec![8, 0, 0, 0, 63, 63]);
}

#[test]
fn gadget_matrix_entries() {
    let g = GadgetMatrix::new(1, 64, 2, Q);
    assert_eq!(
        g.matrix,
        vec![vec![1 << 26, 0], vec![1 << 20, 0], vec![0, 1 << 26], vec![0, 1 << 20]]
    );
    let g = GadgetMatrix::new(0, 16, 3, Q);
    assert_eq!(g.matrix, vec![vec![1 << 28], vec![1 << 24], vec![1 << 20]]);
}

#[test]
fn gadget_matrix_zero_pattern() {
    let (n, l) = (3usize, 3usize);
    let g = GadgetMatrix::new(n, 16, l, Q);
    assert_eq!(g.matrix.len(), (n + 1) * l);
    for j in 0..=n {
        let nonzero: Vec<usize> = (0..g.matrix.len()).filter(|&i| g.matrix[i][j] != 0).collect();
        assert_eq!(nonzero, (j * l..(j + 1) * l).collect::<Vec<_>>());
    }
}

#[test]
fn gadget_cache_builds_once_per_parameter_set() {
    let mut cache = GadgetCache::new();
    let a = cache.get_gadget_matrix(1, 64, 2, Q);
    let b = cache.get_gadget_matrix(1, 64, 2, Q);
    assert_eq!(a, b);
    assert_eq!(cache.matrices.len(), 1);
    let c = cache.get_gadget_matrix(2, 16, 3, Q);
    assert_ne!(a, c);
    assert_eq!(cache.matrices.len(), 2);
    assert_eq!(cache.matrices[c].matrix.len(), 9);
    assert_eq!(cache.matrices[a].matrix[0], vec![1 << 26, 0]);
}

#[test]
fn params_validation() {
    assert!(TgswParams::new(630, 64, 2).is_valid());
    assert!(TgswParams::new(500, 16, 3).is_valid());
    assert!(TgswParams::new(10, 2, 32).is_valid());
    assert!(!TgswParams::new(10, 2, 33).is_valid());
    assert!(!TgswParams::new(10, 0, 2).is_valid());
    assert!(!TgswParams::new(usize::MAX, 2, 2).is_valid());
    assert!(!TgswParams::new(usize::MAX / 2, 2, 3).is_valid());
}

#[test]
fn base_power_up_to_modulus() {
    assert_eq!(base_power(64, 2), Some(4096));
    assert_eq!(base_power(2, 32), Some(NATIVE_MODULUS));
    assert_eq!(base_power(2, 33), None);
    assert_eq!(base_power(7, 0), Some(1));
}

#[test]
fn vec_scale_rounds_to_nearest() {
    assert_eq!(vec_scale(vec![0, 1 << 31, u32::MAX], 64, 2, Q), vec![0, 2048, 4096]);
    // 2^19 is exactly half a step of 2^20: it rounds up
    assert_eq!(vec_scale(vec![(1 << 19) - 1, 1 << 19, 3 << 20], 64, 2, Q), vec![0, 1, 3]);
}

#[test]
fn raw_vectors_add_modulo_native() {
    assert_eq!(raw_vec_add(&vec![u32::MAX, 5], &vec![2, 7]), vec![1, 12]);
}

#[test]
fn tgsw_encryption_adds_scaled_gadget() {
    let params = TgswParams::new(1, 64, 2);
    let mut cache = GadgetCache::new();
    let zeros: Vec<Ciphertext> = (0..4u32).map(|k| Ciphertext::from_raw(vec![k, 10 * k])).collect();
    let ct = TgswCiphertext::new_encrypt(3, &params, &mut cache, &zeros);
    assert_eq!(
        ct.ct_matrix,
        vec![vec![3 << 26, 0], vec![1 + (3 << 20), 10], vec![2, 20 + (3 << 26)], vec![3, 30 + (3 << 20)]]
    );
    // wraps modulo 2^32
    let ct = TgswCiphertext::new_encrypt(64, &params, &mut cache, &noiseless_zero_rows(1, 2));
    assert_eq!(ct.ct_matrix[0], vec![0, 0]);
    assert_eq!(ct.ct_matrix[1], vec![1 << 26, 0]);
}

#[test]
fn ext_product_of_noiseless_encryption_multiplies() {
    let params = TgswParams::new(1, 64, 2);
    let mut cache = GadgetCache::new();
    let two = TgswCiphertext::new_encrypt(2, &params, &mut cache, &noiseless_zero_rows(1, 2));
    let c = Ciphertext::from_raw(vec![1 << 29, 0]);
    assert_eq!(raw(&two.ext_product(&c, &params)), vec![1 << 30, 0]);
    let one = TgswCiphertext::new_encrypt(1, &params, &mut cache, &noiseless_zero_rows(1, 2));
    let c = Ciphertext::from_raw(vec![7 << 20, 3 << 29]);
    assert_eq!(raw(&one.ext_product(&c, &params)), vec![7 << 20, 3 << 29]);
    let zero = TgswCiphertext::new_encrypt(0, &params, &mut cache, &noiseless_zero_rows(1, 2));
    assert_eq!(raw(&zero.ext_product(&c, &params)), vec![0, 0]);
}

#[test]
fn ext_product_rounds_input_to_gadget_precision() {
    let params = TgswParams::new(1, 64, 2);
    let mut cache = GadgetCache::new();
    let one = TgswCiphertext::new_encrypt(1, &params, &mut cache, &noiseless_zero_rows(1, 2));
    // entries are rounded to multiples of q / B^l = 2^20
    let c = Ciphertext::from_raw(vec![(5 << 20) + 1000, (9 << 20) - 1000]);
    assert_eq!(raw(&one.ext_product(&c, &params)), vec![5 << 20, 9 << 20]);
}

#[test]
fn ext_product_adds_noise_rows_by_digits() {
    let params = TgswParams::new(1, 64, 2);
    let mut cache = GadgetCache::new();
    let zeros: Vec<Ciphertext> = (0..4u32).map(|k| Ciphertext::from_raw(vec![k + 1, 0])).collect();
    let zero = TgswCiphertext::new_encrypt(0, &params, &mut cache, &zeros);
    // digits of round(c * 4096 / 2^32): [65 << 20] -> 65 = (1, 1); [2 << 20] -> (0, 2)
    let c = Ciphertext::from_raw(vec![65 << 20, 2 << 20]);
    assert_eq!(raw(&zero.ext_product(&c, &params)), vec![1 * 1 + 1 * 2 + 0 * 3 + 2 * 4, 0]);
}

#[test]
fn gadget_cache_keeps_earlier_entries() {
    let mut cache = GadgetCache::new();
    let a = cache.get_gadget_matrix(0, 2, 4, Q);
    let before = cache.matrices[a].matrix.clone();
    let b = cache.get_gadget_matrix(0, 4, 2, Q);
    assert_ne!(a, b);
    assert_eq!(cache.matrices[a].matrix, before);
    assert_eq!(cache.matrices[a].matrix, vec![vec![1 << 31], vec![1 << 30], vec![1 << 29], vec![1 << 28]]);
    assert_eq!(cache.matrices[b].matrix, vec![vec![1 << 30], vec![1 << 28]]);
    assert_eq!(cache.keys, vec![(0, 2, 4, Q), (0, 4, 2, Q)]);
}

#[test]
fn ciphertext_representation() {
    let ct = Ciphertext::from_raw(vec![1, 2, 3]);
    assert!(ct.is_encrypted());
    assert_eq!(ct.raw_data(), &vec![1, 2, 3]);
    assert!(!Ciphertext::Trivial(true).is_encrypted());
}
