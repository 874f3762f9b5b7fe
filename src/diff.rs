//! The distance between two hashes, and the code-distance kernels.
use vstd::prelude::*;

use crate::hash::TLSH;

verus! {

/// Distance of two two-bit symbols: how many classes apart they are,
/// except that three classes apart counts six.
pub open spec fn symbol_distance(a: u8, b: u8) -> u8 {
    let d = if a > b {
        (a - b) as u8
    } else {
        (b - a) as u8
    };
    if d == 3 {
        6
    } else {
        d
    }
}

/// Distance of two code bytes: the sum over their four two-bit symbols.
pub open spec fn byte_distance(x: u8, y: u8) -> u8 {
    (symbol_distance(x & 3, y & 3) + symbol_distance((x >> 2u8) & 3, (y >> 2u8) & 3)
        + symbol_distance((x >> 4u8) & 3, (y >> 4u8) & 3) + symbol_distance(x >> 6u8, y >> 6u8)) as u8
}

proof fn lemma_byte_distance_bound(x: u8, y: u8)
    by (bit_vector)
    ensures
        byte_distance(x, y) <= 24,
{
}

/// Per nibble, the distance of its two symbols.
pub open spec fn nibble_scores(i: u64, j: u64) -> u64 {
    let res0 = i ^ j;
    let i0_j1 = !i & j;
    let i1_j0 = i & !j;
    let even_01 = i0_j1 & 0xAAAAAAAAAAAAAAAAu64;
    let odd_01 = (i0_j1 & 0x5555555555555555u64) << 1u64;
    let even_10 = i1_j0 & 0xAAAAAAAAAAAAAAAAu64;
    let odd_10 = (i1_j0 & 0x5555555555555555u64) << 1u64;
    let mask = (even_01 & odd_10) | (even_10 & odd_01);
    let res = res0 & !mask;
    let odd_dups = res & 0x3333333333333333u64;
    let three = odd_dups & (odd_dups << 1u64);
    let six = three | (three << 1u64);
    let masked_originals = odd_dups & !(six >> 1u64);
    let s1 = (six + masked_originals) as u64;
    let even_dups = (res >> 2u64) & 0x3333333333333333u64;
    let three2 = even_dups & (even_dups << 1u64);
    let six2 = three2 | (three2 << 1u64);
    let masked_originals2 = even_dups & !(six2 >> 1u64);
    (s1 + (six2 + masked_originals2) as u64) as u64
}

/// Per byte, the distance of its four symbols.
pub open spec fn byte_scores(i: u64, j: u64) -> u64 {
    let s1 = nibble_scores(i, j);
    (((s1 & 0xF0F0F0F0F0F0F0F0u64) >> 4u64) + (s1 & 0x0F0F0F0F0F0F0F0Fu64)) as u64
}

pub open spec fn byte_of(x: u64, k: u64) -> u8 {
    ((x >> (8 * k)) & 0xFFu64) as u8
}

/// Each byte of `byte_scores` is the distance of the matching code bytes.
proof fn lemma_byte_scores(i: u64, j: u64)
    by (bit_vector)
    ensures
        byte_of(byte_scores(i, j), 0) == byte_distance(byte_of(i, 0), byte_of(j, 0)),
        byte_of(byte_scores(i, j), 1) == byte_distance(byte_of(i, 1), byte_of(j, 1)),
        byte_of(byte_scores(i, j), 2) == byte_distance(byte_of(i, 2), byte_of(j, 2)),
        byte_of(byte_scores(i, j), 3) == byte_distance(byte_of(i, 3), byte_of(j, 3)),
        byte_of(byte_scores(i, j), 4) == byte_distance(byte_of(i, 4), byte_of(j, 4)),
        byte_of(byte_scores(i, j), 5) == byte_distance(byte_of(i, 5), byte_of(j, 5)),
        byte_of(byte_scores(i, j), 6) == byte_distance(byte_of(i, 6), byte_of(j, 6)),
        byte_of(byte_scores(i, j), 7) == byte_distance(byte_of(i, 7), byte_of(j, 7)),
{
}

/// Adds up the bytes of `s` pairwise: into 16-bit, 32-bit and 64-bit lanes.
pub open spec fn fold_bytes(s: u64) -> u64 {
    let s2 = (((s & 0xFF00FF00FF00FF00u64) >> 8u64) + (s & 0x00FF00FF00FF00FFu64)) as u64;
    let s3 = (((s2 & 0xFFFF0000FFFF0000u64) >> 16u64) + (s2 & 0x0000FFFF0000FFFFu64)) as u64;
    (((s3 & 0xFFFFFFFF00000000u64) >> 32u64) + (s3 & 0x00000000FFFFFFFFu64)) as u64
}

/// With small bytes, folding them adds them up.
proof fn lemma_fold_bytes(x: u64)
    by (bit_vector)
    requires
        byte_of(x, 0) <= 24,
        byte_of(x, 1) <= 24,
        byte_of(x, 2) <= 24,
        byte_of(x, 3) <= 24,
        byte_of(x, 4) <= 24,
        byte_of(x, 5) <= 24,
        byte_of(x, 6) <= 24,
        byte_of(x, 7) <= 24,
    ensures
        fold_bytes(x) == byte_of(x, 0) as u64 + byte_of(x, 1) as u64 + byte_of(x, 2) as u64 + byte_of(x, 3) as u64 + byte_of(x, 4) as u64 + byte_of(x, 5) as u64 + byte_of(x, 6) as u64 + byte_of(x, 7) as u64,
{
}

/// Distance of two 64-bit words of a code vector: the sum over their bytes.
pub open spec fn word_distance(i: u64, j: u64) -> int {
    byte_distance(byte_of(i, 0), byte_of(j, 0)) + byte_distance(byte_of(i, 1), byte_of(j, 1)) + byte_distance(byte_of(i, 2), byte_of(j, 2)) + byte_distance(byte_of(i, 3), byte_of(j, 3)) + byte_distance(byte_of(i, 4), byte_of(j, 4)) + byte_distance(byte_of(i, 5), byte_of(j, 5)) + byte_distance(byte_of(i, 6), byte_of(j, 6)) + byte_distance(byte_of(i, 7), byte_of(j, 7))
}

/// Code distance of two 64-bit words, 32 symbols each, counted in parallel
/// over the bits of the words.
pub fn tlsh_diff_f3_64(i: u64, j: u64) -> (r: u32)
    ensures
        r == word_distance(i, j),
{
    let mut res = i ^ j;

    let i0_j1 = (!i) & j;
    let i1_j0 = i & (!j);

    let even_01 = i0_j1 & 0xAAAAAAAAAAAAAAAA;
    let odd_01 = (i0_j1 & 0x5555555555555555) << 1;
    let even_10 = i1_j0 & 0xAAAAAAAAAAAAAAAA;
    let odd_10 = (i1_j0 & 0x5555555555555555) << 1;

    let mask = (even_01 & odd_10) | (even_10 & odd_01);

    res = res & !mask;

    let odd_dups = res & 0x3333333333333333;
    let mut three = odd_dups & (odd_dups << 1);
    let mut six = three | (three << 1);
    let mut masked_originals = odd_dups & !(six >> 1);
    assert(six + masked_originals <= 0x7777777777777777u64) by (bit_vector)
        requires
            six == three | (three << 1u64),
            three == odd_dups & (odd_dups << 1u64),
            masked_originals == odd_dups & !(six >> 1u64),
            odd_dups == res & 0x3333333333333333u64,
    ;
    let low = six + masked_originals;

    let even_dups = (res >> 2) & 0x3333333333333333;
    three = even_dups & (even_dups << 1);
    six = three | (three << 1);
    masked_originals = even_dups & !(six >> 1);
    assert(six + masked_originals <= 0x7777777777777777u64) by (bit_vector)
        requires
            six == three | (three << 1u64),
            three == even_dups & (even_dups << 1u64),
            masked_originals == even_dups & !(six >> 1u64),
            even_dups == (res >> 2u64) & 0x3333333333333333u64,
    ;
    let high = six + masked_originals;
    assert(low + high <= 0xFFFFFFFFFFFFFFFFu64) by (bit_vector)
        requires
            low <= 0x7777777777777777u64,
            high <= 0x7777777777777777u64,
    ;
    let mut s1 = low + high;
    assert(s1 == nibble_scores(i, j));

    let mut even = s1 & 0xF0F0F0F0F0F0F0F0;
    let mut odd = s1 & 0x0F0F0F0F0F0F0F0F;
    assert((even >> 4) + odd <= 0xFFFFFFFFFFFFFFFFu64) by (bit_vector)
        requires
            even == s1 & 0xF0F0F0F0F0F0F0F0u64,
            odd == s1 & 0x0F0F0F0F0F0F0F0Fu64,
    ;
    s1 = (even >> 4) + odd;
    let ghost scores = s1;
    assert(scores == byte_scores(i, j));
    proof {
        lemma_byte_scores(i, j);
    }

    even = s1 & 0xFF00FF00FF00FF00;
    odd = s1 & 0x00FF00FF00FF00FF;
    assert((even >> 8) + odd <= 0xFFFFFFFFFFFFFFFFu64) by (bit_vector)
        requires
            even == s1 & 0xFF00FF00FF00FF00u64,
            odd == s1 & 0x00FF00FF00FF00FFu64,
    ;
    s1 = (even >> 8) + odd;

    even = s1 & 0xFFFF0000FFFF0000;
    odd = s1 & 0x0000FFFF0000FFFF;
    assert((even >> 16) + odd <= 0xFFFFFFFFFFFFFFFFu64) by (bit_vector)
        requires
            even == s1 & 0xFFFF0000FFFF0000u64,
            odd == s1 & 0x0000FFFF0000FFFFu64,
    ;
    s1 = (even >> 16) + odd;

    even = s1 & 0xFFFFFFFF00000000;
    odd = s1 & 0x00000000FFFFFFFF;
    assert((even >> 32) + odd <= 0xFFFFFFFFFFFFFFFFu64) by (bit_vector)
        requires
            even == s1 & 0xFFFFFFFF00000000u64,
            odd == s1 & 0x00000000FFFFFFFFu64,
    ;
    let total = (even >> 32) + odd;
    proof {
        lemma_byte_distance_bound(byte_of(i, 0), byte_of(j, 0));
        lemma_byte_distance_bound(byte_of(i, 1), byte_of(j, 1));
        lemma_byte_distance_bound(byte_of(i, 2), byte_of(j, 2));
        lemma_byte_distance_bound(byte_of(i, 3), byte_of(j, 3));
        lemma_byte_distance_bound(byte_of(i, 4), byte_of(j, 4));
        lemma_byte_distance_bound(byte_of(i, 5), byte_of(j, 5));
        lemma_byte_distance_bound(byte_of(i, 6), byte_of(j, 6));
        lemma_byte_distance_bound(byte_of(i, 7), byte_of(j, 7));
        lemma_fold_bytes(scores);
        assert(total == fold_bytes(scores));
    }
    total as u32
}

/// Distance of the first `n` bytes of two code vectors.
pub open spec fn code_distance_upto(a: Seq<u8>, b: Seq<u8>, n: nat) -> int
    decreases n,
{
    if n == 0 {
        0
    } else {
        code_distance_upto(a, b, (n - 1) as nat) + byte_distance(a[n - 1], b[n - 1])
    }
}

/// Distance of two code vectors: the sum over their bytes of the distances
/// of the four two-bit symbols.
pub open spec fn code_distance(a: Seq<u8>, b: Seq<u8>) -> int {
    code_distance_upto(a, b, a.len())
}

proof fn lemma_word_bytes(b0: u8, b1: u8, b2: u8, b3: u8, b4: u8, b5: u8, b6: u8, b7: u8)
    by (bit_vector)
    ensures
        byte_of(b0 as u64 | (b1 as u64) << 8u64 | (b2 as u64) << 16u64 | (b3 as u64) << 24u64 | (b4 as u64) << 32u64 | (b5 as u64) << 40u64 | (b6 as u64) << 48u64 | (b7 as u64) << 56u64, 0) == b0,
        byte_of(b0 as u64 | (b1 as u64) << 8u64 | (b2 as u64) << 16u64 | (b3 as u64) << 24u64 | (b4 as u64) << 32u64 | (b5 as u64) << 40u64 | (b6 as u64) << 48u64 | (b7 as u64) << 56u64, 1) == b1,
        byte_of(b0 as u64 | (b1 as u64) << 8u64 | (b2 as u64) << 16u64 | (b3 as u64) << 24u64 | (b4 as u64) << 32u64 | (b5 as u64) << 40u64 | (b6 as u64) << 48u64 | (b7 as u64) << 56u64, 2) == b2,
        byte_of(b0 as u64 | (b1 as u64) << 8u64 | (b2 as u64) << 16u64 | (b3 as u64) << 24u64 | (b4 as u64) << 32u64 | (b5 as u64) << 40u64 | (b6 as u64) << 48u64 | (b7 as u64) << 56u64, 3) == b3,
        byte_of(b0 as u64 | (b1 as u64) << 8u64 | (b2 as u64) << 16u64 | (b3 as u64) << 24u64 | (b4 as u64) << 32u64 | (b5 as u64) << 40u64 | (b6 as u64) << 48u64 | (b7 as u64) << 56u64, 4) == b4,
        byte_of(b0 as u64 | (b1 as u64) << 8u64 | (b2 as u64) << 16u64 | (b3 as u64) << 24u64 | (b4 as u64) << 32u64 | (b5 as u64) << 40u64 | (b6 as u64) << 48u64 | (b7 as u64) << 56u64, 5) == b5,
        byte_of(b0 as u64 | (b1 as u64) << 8u64 | (b2 as u64) << 16u64 | (b3 as u64) << 24u64 | (b4 as u64) << 32u64 | (b5 as u64) << 40u64 | (b6 as u64) << 48u64 | (b7 as u64) << 56u64, 6) == b6,
        byte_of(b0 as u64 | (b1 as u64) << 8u64 | (b2 as u64) << 16u64 | (b3 as u64) << 24u64 | (b4 as u64) << 32u64 | (b5 as u64) << 40u64 | (b6 as u64) << 48u64 | (b7 as u64) << 56u64, 7) == b7,
{
}

proof fn lemma_upto_eight(a: Seq<u8>, b: Seq<u8>, n: int)
    requires
        n >= 0,
    ensures
        code_distance_upto(a, b, (n + 8) as nat) == code_distance_upto(a, b, n as nat) + byte_distance(a[n + 0], b[n + 0])
            + byte_distance(a[n + 1], b[n + 1]) + byte_distance(a[n + 2], b[n + 2]) + byte_distance(a[n + 3], b[n + 3])
            + byte_distance(a[n + 4], b[n + 4]) + byte_distance(a[n + 5], b[n + 5]) + byte_distance(a[n + 6], b[n + 6])
            + byte_distance(a[n + 7], b[n + 7]),
{
    assert(code_distance_upto(a, b, (n + 1) as nat) == code_distance_upto(a, b, (n + 0) as nat) + byte_distance(a[n + 0], b[n + 0]));
    assert(code_distance_upto(a, b, (n + 2) as nat) == code_distance_upto(a, b, (n + 1) as nat) + byte_distance(a[n + 1], b[n + 1]));
    assert(code_distance_upto(a, b, (n + 3) as nat) == code_distance_upto(a, b, (n + 2) as nat) + byte_distance(a[n + 2], b[n + 2]));
    assert(code_distance_upto(a, b, (n + 4) as nat) == code_distance_upto(a, b, (n + 3) as nat) + byte_distance(a[n + 3], b[n + 3]));
    assert(code_distance_upto(a, b, (n + 5) as nat) == code_distance_upto(a, b, (n + 4) as nat) + byte_distance(a[n + 4], b[n + 4]));
    assert(code_distance_upto(a, b, (n + 6) as nat) == code_distance_upto(a, b, (n + 5) as nat) + byte_distance(a[n + 5], b[n + 5]));
    assert(code_distance_upto(a, b, (n + 7) as nat) == code_distance_upto(a, b, (n + 6) as nat) + byte_distance(a[n + 6], b[n + 6]));
    assert(code_distance_upto(a, b, (n + 8) as nat) == code_distance_upto(a, b, (n + 7) as nat) + byte_distance(a[n + 7], b[n + 7]));
}

proof fn lemma_upto_bound(a: Seq<u8>, b: Seq<u8>, n: nat)
    ensures
        0 <= code_distance_upto(a, b, n) <= 24 * n,
    decreases n,
{
    if n > 0 {
        lemma_upto_bound(a, b, (n - 1) as nat);
        lemma_byte_distance_bound(a[n - 1], b[n - 1]);
    }
}

/// The eight bytes of a code vector from `8 * w` on as one word, the first
/// byte lowest.
fn load_word(a: &[u8; 32], w: usize) -> (x: u64)
    requires
        w < 4,
    ensures
        forall|k: u64| k < 8 ==> #[trigger] byte_of(x, k) == a@[8 * w + k],
{
    let base = 8 * w;
    let x = a[base] as u64 | (a[base + 1] as u64) << 8 | (a[base + 2] as u64) << 16 | (a[base + 3] as u64) << 24
        | (a[base + 4] as u64) << 32 | (a[base + 5] as u64) << 40 | (a[base + 6] as u64) << 48 | (a[base + 7] as u64) << 56;
    proof {
        lemma_word_bytes(a[base as int], a[base + 1], a[base + 2], a[base + 3], a[base + 4], a[base + 5], a[base + 6], a[base + 7]);
    }
    x
}

/// Code distance of two code vectors, a 64-bit word at a time.
pub fn tlsh_diff_codes_64(a: &[u8; 32], b: &[u8; 32]) -> (r: u32)
    ensures
        r == code_distance(a@, b@),
{
    let mut d: u32 = 0;
    let mut w: usize = 0;
    while w < 4
        invariant
            w <= 4,
            d == code_distance_upto(a@, b@, (8 * w) as nat),
        decreases 4 - w,
    {
        let x = load_word(a, w);
        let y = load_word(b, w);
        let e = tlsh_diff_f3_64(x, y);
        proof {
            lemma_upto_eight(a@, b@, 8 * w as int);
            assert(byte_of(x, 0) == a@[8 * w + 0] && byte_of(y, 0) == b@[8 * w + 0]);
            assert(byte_of(x, 1) == a@[8 * w + 1] && byte_of(y, 1) == b@[8 * w + 1]);
            assert(byte_of(x, 2) == a@[8 * w + 2] && byte_of(y, 2) == b@[8 * w + 2]);
            assert(byte_of(x, 3) == a@[8 * w + 3] && byte_of(y, 3) == b@[8 * w + 3]);
            assert(byte_of(x, 4) == a@[8 * w + 4] && byte_of(y, 4) == b@[8 * w + 4]);
            assert(byte_of(x, 5) == a@[8 * w + 5] && byte_of(y, 5) == b@[8 * w + 5]);
            assert(byte_of(x, 6) == a@[8 * w + 6] && byte_of(y, 6) == b@[8 * w + 6]);
            assert(byte_of(x, 7) == a@[8 * w + 7] && byte_of(y, 7) == b@[8 * w + 7]);
            lemma_upto_bound(a@, b@, (8 * w + 8) as nat);
        }
        d = d + e;
        w = w + 1;
    }
    d
}

/// Distance of two symbols, row by the first, column by the second.
pub const SYMBOL_DISTANCE_TABLE: [u8; 16] = [0, 1, 2, 6, 1, 0, 1, 2, 2, 1, 0, 1, 6, 2, 1, 0];

/// Distance of two symbols looked up in the table.
fn symbol_lookup(a: u8, b: u8) -> (r: u8)
    requires
        a < 4,
        b < 4,
    ensures
        r == symbol_distance(a, b),
{
    let r = SYMBOL_DISTANCE_TABLE[(a * 4 + b) as usize];
    assert(r == symbol_distance(a, b)) by {
        if a == 0 {
            if b == 0 {} else if b == 1 {} else if b == 2 {} else {}
        } else if a == 1 {
            if b == 0 {} else if b == 1 {} else if b == 2 {} else {}
        } else if a == 2 {
            if b == 0 {} else if b == 1 {} else if b == 2 {} else {}
        } else {
            if b == 0 {} else if b == 1 {} else if b == 2 {} else {}
        }
    }
    r
}

/// Distance of two code bytes, a symbol at a time through the table.
fn lut_byte_distance(x: u8, y: u8) -> (r: u8)
    ensures
        r == byte_distance(x, y),
{
    assert(x & 3 < 4 && y & 3 < 4 && (x >> 2u8) & 3 < 4 && (y >> 2u8) & 3 < 4) by (bit_vector);
    assert((x >> 4u8) & 3 < 4 && (y >> 4u8) & 3 < 4 && x >> 6u8 < 4 && y >> 6u8 < 4) by (bit_vector);
    let d0 = symbol_lookup(x & 3, y & 3);
    let d1 = symbol_lookup((x >> 2) & 3, (y >> 2) & 3);
    let d2 = symbol_lookup((x >> 4) & 3, (y >> 4) & 3);
    let d3 = symbol_lookup(x >> 6, y >> 6);
    d0 + d1 + d2 + d3
}

/// Code distance of two code vectors, a byte at a time through a table of
/// symbol distances.
pub fn tlsh_diff_codes_lut(a: &[u8; 32], b: &[u8; 32]) -> (r: u32)
    ensures
        r == code_distance(a@, b@),
{
    let mut d: u32 = 0;
    let mut i: usize = 0;
    while i < 32
        invariant
            i <= 32,
            d == code_distance_upto(a@, b@, i as nat),
        decreases 32 - i,
    {
        proof {
            lemma_upto_bound(a@, b@, (i + 1) as nat);
        }
        d = d + lut_byte_distance(a[i], b[i]) as u32;
        i = i + 1;
    }
    d
}

/// Code distance of two code vectors.
pub fn tlsh_diff_codes(a: &[u8; 32], b: &[u8; 32]) -> (r: u32)
    ensures
        r == code_distance(a@, b@),
{
    tlsh_diff_codes_64(a, b)
}

/// Distance of `x` and `y` on a circle of `range` values.
pub open spec fn mod_distance(x: int, y: int, range: int) -> int {
    let dl = if x > y {
        x - y
    } else {
        y - x
    };
    if dl > range - dl {
        range - dl
    } else {
        dl
    }
}

/// Penalty of two length bytes: their circular distance, twelvefold above one.
pub open spec fn length_term(a: u8, b: u8) -> int {
    let l = mod_distance(a as int, b as int, 256);
    if l <= 1 {
        l
    } else {
        l * 12
    }
}

/// Penalty of two quartile-ratio nibbles: their circular distance,
/// twelvefold less one above one.
pub open spec fn ratio_term(a: u8, b: u8) -> int {
    let q = mod_distance(a as int, b as int, 16);
    if q <= 1 {
        q
    } else {
        (q - 1) * 12
    }
}

/// Distance of two hashes: the code distance plus the length, quartile
/// ratio and checksum penalties.
pub open spec fn tlsh_distance(a: TLSH, b: TLSH) -> int {
    penalty_distance(a, b) + code_distance(a.codes@, b.codes@)
}

/// The length, quartile ratio and checksum penalties of two hashes.
pub open spec fn penalty_distance(a: TLSH, b: TLSH) -> int {
    length_term(a.lvalue, b.lvalue) + ratio_term(a.q_ratios % 16, b.q_ratios % 16) + ratio_term(
        a.q_ratios / 16,
        b.q_ratios / 16,
    ) + (if a.checksum != b.checksum {
        1int
    } else {
        0int
    })
}

fn mod_diff(x: u8, y: u8, range: u32) -> (r: u32)
    requires
        x < range,
        y < range,
        range <= 256,
    ensures
        r == mod_distance(x as int, y as int, range as int),
        r <= 128,
{
    let x = x as u32;
    let y = y as u32;
    let dl: u32;
    let dr: u32;
    if y > x {
        dl = y - x;
        dr = x + range - y;
    } else {
        dl = x - y;
        dr = y + range - x;
    }
    if dl > dr {
        dr
    } else {
        dl
    }
}

impl TLSH {
    /// Distance between two hashes; 0 between a hash and itself
    pub fn diff(&self, other: &TLSH) -> (r: u32)
        ensures
            r == tlsh_distance(*self, *other),
    {
        proof {
            lemma_upto_bound(self.codes@, other.codes@, 32);
        }
        self.diff_with_code_distance(other, tlsh_diff_codes(&self.codes, &other.codes))
    }

    /// Distance between two hashes whose code distance, computed by any
    /// kernel, is `code_diff`: the penalties added to it.
    pub fn diff_with_code_distance(&self, other: &TLSH, code_diff: u32) -> (r: u32)
        requires
            code_diff <= 768,
        ensures
            r == penalty_distance(*self, *other) + code_diff,
    {
        let mut diff: u32 = 0;
        let ldiff = mod_diff(self.lvalue, other.lvalue, 256);
        if ldiff <= 1 {
            diff = ldiff;
        } else {
            diff = ldiff * 12;
        }
        let q1diff = mod_diff(self.q_ratios % 16, other.q_ratios % 16, 16);
        if q1diff <= 1 {
            diff = diff + q1diff;
        } else {
            diff = diff + (q1diff - 1) * 12;
        }
        let q2diff = mod_diff(self.q_ratios / 16, other.q_ratios / 16, 16);
        if q2diff <= 1 {
            diff = diff + q2diff;
        } else {
            diff = diff + (q2diff - 1) * 12;
        }
        if self.checksum != other.checksum {
            diff = diff + 1;
        }
        diff + code_diff
    }
}

proof fn lemma_code_distance_symmetric(a: Seq<u8>, b: Seq<u8>, n: nat)
    ensures
        code_distance_upto(a, b, n) == code_distance_upto(b, a, n),
    decreases n,
{
    if n > 0 {
        lemma_code_distance_symmetric(a, b, (n - 1) as nat);
    }
}

proof fn lemma_code_distance_self(a: Seq<u8>, n: nat)
    ensures
        code_distance_upto(a, a, n) == 0,
    decreases n,
{
    if n > 0 {
        lemma_code_distance_self(a, (n - 1) as nat);
    }
}

/// The distance of two hashes does not depend on their order.
pub proof fn lemma_diff_symmetric(a: TLSH, b: TLSH)
    ensures
        tlsh_distance(a, b) == tlsh_distance(b, a),
{
    lemma_code_distance_symmetric(a.codes@, b.codes@, 32);
}

/// A hash is at distance 0 from itself.
pub proof fn lemma_diff_self(a: TLSH)
    ensures
        tlsh_distance(a, a) == 0,
{
    lemma_code_distance_self(a.codes@, 32);
}

/// Symbol `j` (0 to 3) of a code byte: bits `2j` and `2j + 1`.
pub open spec fn symbol_at(x: u8, j: int) -> u8 {
    if j == 0 {
        x & 3
    } else if j == 1 {
        (x >> 2u8) & 3
    } else if j == 2 {
        (x >> 4u8) & 3
    } else {
        x >> 6u8
    }
}

/// Symbol `k` (0 to 127) of a code vector.
pub open spec fn code_symbol(v: Seq<u8>, k: int) -> u8 {
    symbol_at(v[k / 4], k % 4)
}

proof fn lemma_byte_one_symbol(x: u8, y: u8, j0: int)
    requires
        forall|j: int| 0 <= j < 4 && j != j0 ==> symbol_at(x, j) == symbol_at(y, j),
    ensures
        byte_distance(x, y) == if 0 <= j0 < 4 {
            symbol_distance(symbol_at(x, j0), symbol_at(y, j0)) as int
        } else {
            0
        },
{
    if j0 != 0 {
        assert(symbol_at(x, 0) == symbol_at(y, 0));
    }
    if j0 != 1 {
        assert(symbol_at(x, 1) == symbol_at(y, 1));
    }
    if j0 != 2 {
        assert(symbol_at(x, 2) == symbol_at(y, 2));
    }
    if j0 != 3 {
        assert(symbol_at(x, 3) == symbol_at(y, 3));
    }
    lemma_byte_distance_bound(x, y);
}

proof fn lemma_upto_one_symbol(a: Seq<u8>, b: Seq<u8>, k0: int, n: nat)
    requires
        a.len() == 32,
        b.len() == 32,
        0 <= k0 < 128,
        n <= 32,
        forall|k: int| 0 <= k < 128 && k != k0 ==> #[trigger] code_symbol(a, k) == code_symbol(b, k),
    ensures
        code_distance_upto(a, b, n) == if n > k0 / 4 {
            symbol_distance(code_symbol(a, k0), code_symbol(b, k0)) as int
        } else {
            0
        },
    decreases n,
{
    if n > 0 {
        lemma_upto_one_symbol(a, b, k0, (n - 1) as nat);
        let i = n - 1;
        let j0 = if i == k0 / 4 {
            k0 % 4
        } else {
            -1
        };
        assert forall|j: int| 0 <= j < 4 && j != j0 implies symbol_at(a[i], j) == symbol_at(b[i], j) by {
            let k = 4 * i + j;
            assert(k / 4 == i && k % 4 == j);
            assert(code_symbol(a, k) == code_symbol(b, k));
        }
        lemma_byte_one_symbol(a[i], b[i], j0);
    }
}

/// Two code vectors that differ in one symbol alone are as far apart as
/// that symbol's two classes: 1 or 2 for one or two classes, 6 for three.
pub proof fn lemma_single_symbol_distance(a: [u8; 32], b: [u8; 32], k0: int)
    requires
        0 <= k0 < 128,
        forall|k: int| 0 <= k < 128 && k != k0 ==> #[trigger] code_symbol(a@, k) == code_symbol(b@, k),
    ensures
        code_distance(a@, b@) == symbol_distance(code_symbol(a@, k0), code_symbol(b@, k0)),
        code_symbol(a@, k0) == 3 && code_symbol(b@, k0) == 0 ==> code_distance(a@, b@) == 6,
        code_symbol(a@, k0) == 3 && code_symbol(b@, k0) == 1 ==> code_distance(a@, b@) == 2,
        code_symbol(a@, k0) == 3 && code_symbol(b@, k0) == 2 ==> code_distance(a@, b@) == 1,
        code_symbol(a@, k0) == 2 && code_symbol(b@, k0) == 1 ==> code_distance(a@, b@) == 1,
{
    lemma_upto_one_symbol(a@, b@, k0, 32);
}

/// The table kernel and the 64-bit kernel give the same distance on every
/// pair of code vectors.
pub proof fn lemma_kernels_agree(a: [u8; 32], b: [u8; 32], r_lut: u32, r_64: u32)
    requires
        r_lut == code_distance(a@, b@),
        r_64 == code_distance(a@, b@),
    ensures
        r_lut == r_64,
{
}

} // verus!
