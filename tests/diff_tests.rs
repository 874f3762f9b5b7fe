use simbiota_tlsh::{
    calc_lvalue, find_quartile, select_backend, tlsh_diff_codes, tlsh_diff_codes_64, tlsh_diff_codes_lut,
    tlsh_diff_f3_64, CpuFeatures, DiffBackend, DiffOverrides, TLSH,
};

const HASH1: &str = "53152333A0D13738E4B172B10F6AC6135BEF7A225664750839D69F8D8E3B6C8D56932C";
const HASH2: &str = "94052217B1A73B39E46588F54EA5C09C2CFF3F222934210EB1ACA9491F7F7C0955A792";

fn with_symbol(base: [u8; 32], byte: usize, slot: usize, class: u8) -> [u8; 32] {
    let mut v = base;
    v[byte] = (v[byte] & !(3 << (2 * slot))) | (class << (2 * slot));
    v
}

#[test]
fn single_symbol_distances() {
    let threes = [0xFFu8; 32];
    assert_eq!(tlsh_diff_codes(&threes, &with_symbol(threes, 5, 2, 0)), 6);
    assert_eq!(tlsh_diff_codes(&threes, &with_symbol(threes, 5, 2, 2)), 1);
    assert_eq!(tlsh_diff_codes(&threes, &with_symbol(threes, 17, 0, 1)), 2);
    let twos = [0xAAu8; 32];
    assert_eq!(tlsh_diff_codes(&twos, &with_symbol(twos, 30, 3, 1)), 1);
    let zeros = [0u8; 32];
    assert_eq!(tlsh_diff_codes(&zeros, &with_symbol(zeros, 0, 0, 3)), 6);
    assert_eq!(tlsh_diff_codes(&zeros, &with_symbol(zeros, 31, 3, 2)), 2);
}

#[test]
fn three_to_two_and_three_to_one() {
    let base = with_symbol([0u8; 32], 9, 1, 3);
    assert_eq!(tlsh_diff_codes_lut(&base, &with_symbol(base, 9, 1, 2)), 1);
    assert_eq!(tlsh_diff_codes_lut(&base, &with_symbol(base, 9, 1, 1)), 2);
    assert_eq!(tlsh_diff_codes_lut(&base, &with_symbol(base, 9, 1, 0)), 6);
    assert_eq!(tlsh_diff_codes_64(&base, &with_symbol(base, 9, 1, 1)), 2);
}

#[test]
fn whole_vectors_apart() {
    assert_eq!(tlsh_diff_codes(&[0u8; 32], &[0xFFu8; 32]), 6 * 128);
    assert_eq!(tlsh_diff_codes(&[0x55u8; 32], &[0xAAu8; 32]), 128);
    assert_eq!(tlsh_diff_f3_64(0, u64::MAX), 6 * 32);
    assert_eq!(tlsh_diff_f3_64(0x1B, 0xE4), 6 + 1 + 1 + 6);
}

#[test]
fn kernels_agree() {
    let mut x: u64 = 1;
    for _ in 0..200 {
        let mut a = [0u8; 32];
        let mut b = [0u8; 32];
        for i in 0..32 {
            x = x.wrapping_mul(6364136223846793005).wrapping_add(1442695040888963407);
            a[i] = (x >> 56) as u8;
            b[i] = (x >> 48) as u8;
        }
        assert_eq!(tlsh_diff_codes_64(&a, &b), tlsh_diff_codes_lut(&a, &b));
        assert_eq!(tlsh_diff_codes(&a, &b), tlsh_diff_codes_64(&b, &a));
    }
}

#[test]
fn diff_is_symmetric_and_zero_on_itself() {
    let a = TLSH::from_digest(HASH1);
    let b = TLSH::from_digest(HASH2);
    assert_eq!(a.diff(&b), b.diff(&a));
    assert_eq!(a.diff(&a), 0);
    assert_eq!(b.diff(&b), 0);
}

#[test]
fn length_and_ratio_penalties() {
    let a = TLSH::from_digest(HASH1);
    let mut b = a;
    b.lvalue = a.lvalue.wrapping_add(1);
    assert_eq!(a.diff(&b), 1);
    b.lvalue = a.lvalue.wrapping_add(3);
    assert_eq!(a.diff(&b), 36);
    b.lvalue = a.lvalue.wrapping_sub(200);
    assert_eq!(a.diff(&b), 56 * 12);
    let mut c = a;
    c.q_ratios = (a.q_ratios & 0xF0) | ((a.q_ratios + 3) & 0x0F);
    assert_eq!(a.diff(&c), 24);
    let mut d = a;
    d.q_ratios = a.q_ratios.wrapping_add(0x10);
    assert_eq!(a.diff(&d), 1);
    let mut e = a;
    e.checksum = a.checksum ^ 1;
    assert_eq!(a.diff(&e), 1);
}

#[test]
fn length_classes() {
    assert_eq!(calc_lvalue(49), None);
    assert_eq!(calc_lvalue(50), Some(9));
    assert_eq!(calc_lvalue(57), Some(9));
    assert_eq!(calc_lvalue(58), Some(10));
    assert_eq!(calc_lvalue(1000), Some(17));
    assert_eq!(calc_lvalue(3475), Some(22));
    assert_eq!(calc_lvalue(3476), Some(23));
    assert_eq!(calc_lvalue(4294967295), Some(170));
    assert_eq!(calc_lvalue(4294967296), None);
}

#[test]
fn quartiles_of_a_ramp() {
    let mut bucket = [0u64; 256];
    for i in 0..128 {
        bucket[i] = 127 - i as u64;
    }
    bucket[200] = 1000;
    assert_eq!(find_quartile(&bucket), (31, 63, 95));
    let mut flat = [5u64; 256];
    flat[3] = 0;
    assert_eq!(find_quartile(&flat), (5, 5, 5));
}

#[test]
fn quartiles_match_sorting() {
    let mut x: u64 = 11;
    for _ in 0..100 {
        let mut bucket = [0u64; 256];
        for b in bucket.iter_mut() {
            x = x.wrapping_mul(6364136223846793005).wrapping_add(1442695040888963407);
            *b = (x >> 60) as u64;
        }
        let mut sorted = bucket[..128].to_vec();
        sorted.sort();
        assert_eq!(find_quartile(&bucket), (sorted[31], sorted[63], sorted[95]));
    }
}

#[test]
fn backend_choice() {
    let all = CpuFeatures { avx2: true, sse2: true, neon: false };
    let none = DiffOverrides { disable_avx: false, disable_sse: false, disable_neon: false, force_cpu: false };
    assert_eq!(select_backend(all, none), DiffBackend::Avx2);
    let no_avx = DiffOverrides { disable_avx: true, ..none };
    assert_eq!(select_backend(all, no_avx), DiffBackend::Sse2);
    let no_simd = DiffOverrides { disable_avx: true, disable_sse: true, ..none };
    assert_eq!(select_backend(all, no_simd), DiffBackend::Lut);
    let forced = DiffOverrides { force_cpu: true, ..none };
    assert_eq!(select_backend(all, forced), DiffBackend::Cpu);
    let arm = CpuFeatures { avx2: false, sse2: false, neon: true };
    assert_eq!(select_backend(arm, none), DiffBackend::Neon);
    assert_eq!(select_backend(arm, DiffOverrides { disable_neon: true, ..none }), DiffBackend::Lut);
    assert_eq!(DiffBackend::Lut.mode_name(), "LUT");
    assert_eq!(DiffBackend::Cpu.mode_name(), "cpu");
    assert_eq!(DiffBackend::Sse2.mode_name(), "sse2");
    assert_eq!(DiffBackend::Avx2.mode_name(), "avx2");
    assert_eq!(DiffBackend::Neon.mode_name(), "neon");
}

#[test]
fn diff_from_a_given_code_distance() {
    let a = TLSH::from_digest(HASH1);
    let b = TLSH::from_digest(HASH2);
    let codes = tlsh_diff_codes_lut(&a.codes, &b.codes);
    assert_eq!(codes, 115);
    assert_eq!(a.diff_with_code_distance(&b, codes), 118);
    assert_eq!(a.diff_with_code_distance(&b, 0), 3);
}
