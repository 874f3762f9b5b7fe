//! The streaming digest builder: a five-byte window over the bytes fed,
//! a 256-bucket histogram of tri-gram mappings and a rolling checksum per
//! color, and the finalization into a hash.
use vstd::prelude::*;

use crate::hash::{ColoredTLSH, TLSH};
use crate::length::{calc_lvalue, lvalue_of, MIN_DATA_LENGTH};
use crate::pearson::{b_map, color_table, p0_fast_b_mapping, Pearson};
use crate::quartile::{find_quartile, lemma_rank_value, rank_value};

verus! {

const WINDOW_SIZE: usize = 5;

/// Salts of the six tri-grams of the standard TLSH (color 0).
pub const LEGACY_SALTS: [u8; 6] = [49, 12, 178, 166, 84, 230];

/// Salts of the six tri-grams of every other color.
pub const COLOR_SALTS: [u8; 6] = [2, 3, 5, 7, 11, 13];

/// An error during TLSH calculation
#[derive(Clone, Copy, Debug, PartialEq, Eq, Structural)]
pub enum TLSHError {
    /// The data was too short or too long for TLSH calculation
    Length,
    /// The data did not have sufficient variety for TLSH calculation
    Variety,
}

/// Salt of the `t`-th tri-gram of a color.
pub open spec fn salt(color: u8, t: int) -> u8 {
    if color == 0 {
        LEGACY_SALTS@[t]
    } else {
        COLOR_SALTS@[t]
    }
}

/// Bucket of the `t`-th tri-gram of the window `w0, w1, w2, w3, w4`
/// (newest byte first).
pub open spec fn trigram_bucket(color: u8, t: int, w0: u8, w1: u8, w2: u8, w3: u8, w4: u8) -> u8 {
    let tab = color_table(color);
    let s = salt(color, t);
    if t == 0 {
        b_map(tab, s, w0, w1, w2)
    } else if t == 1 {
        b_map(tab, s, w0, w1, w3)
    } else if t == 2 {
        b_map(tab, s, w0, w2, w3)
    } else if t == 3 {
        b_map(tab, s, w0, w2, w4)
    } else if t == 4 {
        b_map(tab, s, w0, w1, w4)
    } else {
        b_map(tab, s, w0, w3, w4)
    }
}

/// 1 when the `t`-th tri-gram of the window falls in bucket `b`, else 0.
pub open spec fn hit(color: u8, t: int, w0: u8, w1: u8, w2: u8, w3: u8, w4: u8, b: int) -> nat {
    if trigram_bucket(color, t, w0, w1, w2, w3, w4) as int == b {
        1
    } else {
        0
    }
}

/// How many of the six tri-grams of one window fall in bucket `b`.
pub open spec fn window_hits(color: u8, w0: u8, w1: u8, w2: u8, w3: u8, w4: u8, b: int) -> nat {
    hit(color, 0, w0, w1, w2, w3, w4, b) + hit(color, 1, w0, w1, w2, w3, w4, b) + hit(
        color,
        2,
        w0,
        w1,
        w2,
        w3,
        w4,
        b,
    ) + hit(color, 3, w0, w1, w2, w3, w4, b) + hit(color, 4, w0, w1, w2, w3, w4, b) + hit(
        color,
        5,
        w0,
        w1,
        w2,
        w3,
        w4,
        b,
    )
}

/// Number of tri-grams of all five-byte windows of `s` that fall in bucket `b`.
pub open spec fn bucket_count(color: u8, s: Seq<u8>, b: int) -> nat
    decreases s.len(),
{
    if s.len() < 5 {
        0
    } else {
        let n = s.len() - 1;
        bucket_count(color, s.drop_last(), b) + window_hits(
            color,
            s[n],
            s[n - 1],
            s[n - 2],
            s[n - 3],
            s[n - 4],
            b,
        )
    }
}

/// A count held in a `u64` that stops at its largest value.
pub open spec fn sat(n: nat) -> u64 {
    if n >= u64::MAX {
        u64::MAX
    } else {
        n as u64
    }
}

/// The 256 bucket counts of a color over the stream `s`.
pub open spec fn histogram(color: u8, s: Seq<u8>) -> Seq<u64> {
    Seq::new(256, |b: int| sat(bucket_count(color, s, b)))
}

/// The one-byte rolling checksum of the stream `s`.
pub open spec fn stream_checksum(s: Seq<u8>) -> u8
    decreases s.len(),
{
    if s.len() < 5 {
        0
    } else {
        let n = s.len() - 1;
        b_map(color_table(0), 1, s[n], s[n - 1], stream_checksum(s.drop_last()))
    }
}

/// What slot `k` of the five-byte ring holds after the stream `s`: the
/// latest byte whose position is `k` modulo 5, or 0.
pub open spec fn window_slot(s: Seq<u8>, k: int) -> u8 {
    let m = s.len() - 1 - ((s.len() - 1 - k) % 5);
    if m >= 0 {
        s[m]
    } else {
        0
    }
}

#[verifier::opaque]
pub open spec fn window_of(s: Seq<u8>) -> Seq<u8> {
    Seq::new(5, |k: int| window_slot(s, k))
}

proof fn lemma_sat_sat(n: nat, m: nat)
    ensures
        sat(sat(n) as nat + m) == sat(n + m),
{
}

proof fn lemma_window_push(s: Seq<u8>, x: u8)
    ensures
        window_of(s.push(x)) == window_of(s).update(s.len() as int % 5, x),
{
    reveal(window_of);
    let t = s.push(x);
    assert forall|k: int| 0 <= k < 5 implies #[trigger] window_of(t)[k] == window_of(s).update(
        s.len() as int % 5,
        x,
    )[k] by {
        let n = s.len() as int;
        if k == n % 5 {
            assert((n - k) % 5 == 0);
        } else {
            assert((n - k) % 5 == (n - 1 - k) % 5 + 1);
        }
    }
    assert(window_of(t) =~= window_of(s).update(s.len() as int % 5, x));
}

proof fn lemma_window_read(s: Seq<u8>, t: int)
    requires
        0 <= t < 5,
        t < s.len(),
    ensures
        window_of(s)[(s.len() - 1 - t) % 5] == s[s.len() - 1 - t],
{
    reveal(window_of);
    let n = s.len() as int;
    let k = (n - 1 - t) % 5;
    assert((n - 1 - k) % 5 == t);
}

/// The first 128 bucket counts, which decide the code vector.
pub open spec fn eff_buckets(color: u8, s: Seq<u8>) -> Seq<u64> {
    histogram(color, s).subrange(0, 128)
}

/// Number of non-zero counts in `h`.
pub open spec fn nonzero_count(h: Seq<u64>) -> nat
    decreases h.len(),
{
    if h.len() == 0 {
        0
    } else {
        nonzero_count(h.drop_last()) + if h.last() > 0 { 1nat } else { 0nat }
    }
}

/// The lower quartile, median and upper quartile of the first 128 counts:
/// the counts at sorted indices 31, 63 and 95.
pub open spec fn quartiles(color: u8, s: Seq<u8>) -> (u64, u64, u64) {
    let h = eff_buckets(color, s);
    (rank_value(h, 31), rank_value(h, 63), rank_value(h, 95))
}

/// The error that finalizing the stream `s` gives, if any.
pub open spec fn hash_error(color: u8, s: Seq<u8>) -> Option<TLSHError> {
    if lvalue_of(s.len()) is None {
        Some(TLSHError::Length)
    } else if quartiles(color, s).2 == 0 || nonzero_count(eff_buckets(color, s)) <= 64 {
        Some(TLSHError::Variety)
    } else {
        None
    }
}

/// Class of a bucket count against the quartiles: 0 up to `q1`, 1 up to
/// `q2`, 2 up to `q3`, 3 above.
pub open spec fn bucket_class(k: u64, q1: u64, q2: u64, q3: u64) -> u8 {
    if q3 < k {
        3
    } else if q2 < k {
        2
    } else if q1 < k {
        1
    } else {
        0
    }
}

/// Byte `i` of the code vector: the classes of buckets `4i .. 4i + 4`, the
/// class of bucket `4i + j` in bits `2j` and `2j + 1`.
pub open spec fn code_byte(h: Seq<u64>, i: int, q1: u64, q2: u64, q3: u64) -> u8 {
    (bucket_class(h[4 * i], q1, q2, q3) + 4 * bucket_class(h[4 * i + 1], q1, q2, q3) + 16
        * bucket_class(h[4 * i + 2], q1, q2, q3) + 64 * bucket_class(h[4 * i + 3], q1, q2, q3)) as u8
}

/// The 32-byte code vector of the stream `s`.
pub open spec fn codes_of(color: u8, s: Seq<u8>) -> Seq<u8> {
    let h = eff_buckets(color, s);
    let q = quartiles(color, s);
    Seq::new(32, |i: int| code_byte(h, i, q.0, q.1, q.2))
}

/// `(q * 100 / q3) mod 16`, with exact integer division.
pub open spec fn q_ratio(q: u64, q3: u64) -> u8 {
    (((q * 100) / (q3 as int)) % 16) as u8
}

/// The ratio of the median to the upper quartile in the high nibble, that of
/// the lower quartile in the low nibble.
pub open spec fn q_ratios_of(color: u8, s: Seq<u8>) -> u8 {
    let q = quartiles(color, s);
    (q_ratio(q.1, q.2) * 16 + q_ratio(q.0, q.2)) as u8
}

/// `h` is the TLSH hash of the stream `s` in color `color`.
pub open spec fn is_tlsh_of(color: u8, s: Seq<u8>, h: TLSH) -> bool {
    &&& hash_error(color, s) is None
    &&& h.checksum == stream_checksum(s)
    &&& lvalue_of(s.len()) == Some(h.lvalue)
    &&& h.q_ratios == q_ratios_of(color, s)
    &&& h.codes@ == codes_of(color, s)
}

/// `r` is what finalizing the stream `s` gives in color `color`.
pub open spec fn is_hash_of(color: u8, s: Seq<u8>, r: Result<ColoredTLSH, TLSHError>) -> bool {
    match r {
        Ok(h) => h.color == color && is_tlsh_of(color, s, h.tlsh),
        Err(e) => hash_error(color, s) == Some(e),
    }
}

proof fn lemma_empty_state(cd: BuilderColorData)
    requires
        cd.pearson.wf(),
        cd.a_bucket@ == Seq::new(256, |b: int| 0u64),
        cd.checksum == 0,
        cd.sliding_window@ == Seq::new(5, |k: int| 0u8),
    ensures
        cd.state_ok(Seq::<u8>::empty()),
{
    reveal(tally_ok);
    reveal(window_of);
    let e = Seq::<u8>::empty();
    assert forall|k: int| 0 <= k < 5 implies #[trigger] window_of(e)[k] == 0u8 by {
        assert((-1 - k) % 5 >= 0);
    }
    assert(cd.sliding_window@ =~= window_of(e));
    assert(cd.a_bucket@ =~= histogram(cd.pearson.color, e));
}

#[derive(Clone, Copy)]
struct BuilderColorData {
    pearson: Pearson,
    a_bucket: [u64; 256],
    checksum: u8,
    sliding_window: [u8; 5],
    finalized: Option<Result<ColoredTLSH, TLSHError>>,
}

/// Histogram and checksum are those of the stream `s`.
#[verifier::opaque]
spec fn tally_ok(pearson: Pearson, bucket: [u64; 256], checksum: u8, s: Seq<u8>) -> bool {
    &&& pearson.wf()
    &&& bucket@ == histogram(pearson.color, s)
    &&& checksum == stream_checksum(s)
}

impl BuilderColorData {
    spec fn counts_ok(&self, s: Seq<u8>) -> bool {
        tally_ok(self.pearson, self.a_bucket, self.checksum, s)
    }

    /// The whole per-color state is that of the stream `s`.
    spec fn state_ok(&self, s: Seq<u8>) -> bool {
        &&& self.pearson.wf()
        &&& self.counts_ok(s)
        &&& self.sliding_window@ == window_of(s)
    }
}

/// Adds one to a bucket, stopping at the largest count.
fn bump(bucket: &mut [u64; 256], i: usize)
    requires
        i < 256,
    ensures
        forall|k: int|
            0 <= k < 256 ==> #[trigger] final(bucket)@[k] == sat(
                old(bucket)@[k] as nat + if k == i { 1nat } else { 0nat },
            ),
{
    bucket[i] = bucket[i].saturating_add(1);
}

/// Counts the six tri-grams of the window `w0, w1, w2, w3, w4`.
fn add_trigrams(bucket: &mut [u64; 256], pearson: &Pearson, w0: u8, w1: u8, w2: u8, w3: u8, w4: u8)
    requires
        pearson.wf(),
    ensures
        forall|b: int|
            0 <= b < 256 ==> #[trigger] final(bucket)@[b] == sat(
                old(bucket)@[b] as nat + window_hits(pearson.color, w0, w1, w2, w3, w4, b),
            ),
{
    let salts = if pearson.color == 0 {
        LEGACY_SALTS
    } else {
        COLOR_SALTS
    };
    let ghost c = pearson.color;
    let ghost b0 = bucket@;
    let i0 = pearson.fast_b_mapping(salts[0], w0, w1, w2) as usize;
    bump(bucket, i0);
    let ghost b1 = bucket@;
    let i1 = pearson.fast_b_mapping(salts[1], w0, w1, w3) as usize;
    bump(bucket, i1);
    let ghost b2 = bucket@;
    let i2 = pearson.fast_b_mapping(salts[2], w0, w2, w3) as usize;
    bump(bucket, i2);
    let ghost b3 = bucket@;
    let i3 = pearson.fast_b_mapping(salts[3], w0, w2, w4) as usize;
    bump(bucket, i3);
    let ghost b4 = bucket@;
    let i4 = pearson.fast_b_mapping(salts[4], w0, w1, w4) as usize;
    bump(bucket, i4);
    let ghost b5 = bucket@;
    let i5 = pearson.fast_b_mapping(salts[5], w0, w3, w4) as usize;
    bump(bucket, i5);
    proof {
        assert forall|b: int| 0 <= b < 256 implies #[trigger] bucket@[b] == sat(
            b0[b] as nat + window_hits(c, w0, w1, w2, w3, w4, b),
        ) by {
            let h0 = hit(c, 0, w0, w1, w2, w3, w4, b);
            let h1 = hit(c, 1, w0, w1, w2, w3, w4, b);
            let h2 = hit(c, 2, w0, w1, w2, w3, w4, b);
            let h3 = hit(c, 3, w0, w1, w2, w3, w4, b);
            let h4 = hit(c, 4, w0, w1, w2, w3, w4, b);
            let h5 = hit(c, 5, w0, w1, w2, w3, w4, b);
            let n0: nat = b0[b] as nat;
            let n1: nat = n0 + h0;
            let n2: nat = n1 + h1;
            let n3: nat = n2 + h2;
            let n4: nat = n3 + h3;
            let n5: nat = n4 + h4;
            assert(b1[b] == sat(n1));
            lemma_sat_sat(n1, h1);
            assert(b2[b] == sat(n2));
            lemma_sat_sat(n2, h2);
            assert(b3[b] == sat(n3));
            lemma_sat_sat(n3, h3);
            assert(b4[b] == sat(n4));
            lemma_sat_sat(n4, h4);
            assert(b5[b] == sat(n5));
            lemma_sat_sat(n5, h5);
        }
    }
}

/// Takes in the byte `w0` that follows the stream `s`, whose last four
/// bytes are `w1, w2, w3, w4` (newest first); the window is left alone.
fn absorb(cd: &mut BuilderColorData, w0: u8, w1: u8, w2: u8, w3: u8, w4: u8, Ghost(s): Ghost<Seq<u8>>)
    requires
        old(cd).counts_ok(s),
        s.len() >= 4,
        s[s.len() - 1] == w1,
        s[s.len() - 2] == w2,
        s[s.len() - 3] == w3,
        s[s.len() - 4] == w4,
    ensures
        final(cd).counts_ok(s.push(w0)),
        final(cd).pearson == old(cd).pearson,
        final(cd).sliding_window == old(cd).sliding_window,
        final(cd).finalized == old(cd).finalized,
{
    let ghost t = s.push(w0);
    proof {
        reveal(tally_ok);
    }
    cd.checksum = p0_fast_b_mapping(1, w0, w1, cd.checksum);
    add_trigrams(&mut cd.a_bucket, &cd.pearson, w0, w1, w2, w3, w4);
    proof {
        assert(t.drop_last() =~= s);
        let c = cd.pearson.color;
        assert forall|b: int| 0 <= b < 256 implies #[trigger] cd.a_bucket@[b] == histogram(c, t)[b] by {
            lemma_sat_sat(bucket_count(c, s, b), window_hits(c, w0, w1, w2, w3, w4, b));
        }
        assert(cd.a_bucket@ =~= histogram(c, t));
    }
}

/// Stores in the ring window the byte `x` that follows the stream `s`.
fn store_window(w: &mut [u8; 5], j: usize, x: u8, Ghost(s): Ghost<Seq<u8>>)
    requires
        old(w)@ == window_of(s),
        j == s.len() % 5,
    ensures
        final(w)@ == window_of(s.push(x)),
{
    w[j] = x;
    proof {
        lemma_window_push(s, x);
    }
}

/// Stores in the ring window the five bytes that follow the stream `s`.
fn store_five(w: &mut [u8; 5], j: usize, a4: u8, a5: u8, a6: u8, a7: u8, a8: u8, Ghost(s): Ghost<Seq<u8>>)
    requires
        old(w)@ == window_of(s),
        j == s.len() % 5,
    ensures
        final(w)@ == window_of(s.push(a4).push(a5).push(a6).push(a7).push(a8)),
{
    let ghost c1 = s.push(a4);
    let ghost c2 = c1.push(a5);
    let ghost c3 = c2.push(a6);
    let ghost c4 = c3.push(a7);
    assert((j + 1) % 5 == c1.len() % 5);
    assert((j + 2) % 5 == c2.len() % 5);
    assert((j + 3) % 5 == c3.len() % 5);
    assert((j + 4) % 5 == c4.len() % 5);
    store_window(w, j, a4, Ghost(s));
    store_window(w, (j + 1) % WINDOW_SIZE, a5, Ghost(c1));
    store_window(w, (j + 2) % WINDOW_SIZE, a6, Ghost(c2));
    store_window(w, (j + 3) % WINDOW_SIZE, a7, Ghost(c3));
    store_window(w, (j + 4) % WINDOW_SIZE, a8, Ghost(c4));
}

/// Takes in the five positions `i..i + 5` of `data` straight from `data`,
/// then stores those five bytes in the ring window.
fn update_five(cd: &mut BuilderColorData, data: &[u8], i: usize, j: usize, Ghost(s): Ghost<Seq<u8>>)
    requires
        4 <= i,
        i + 4 < data@.len(),
        j == (s.len() + i) % 5,
        old(cd).state_ok(s + data@.subrange(0, i as int)),
    ensures
        final(cd).state_ok(s + data@.subrange(0, i + 5)),
        final(cd).pearson == old(cd).pearson,
        final(cd).finalized == old(cd).finalized,
{
    let ghost cur = s + data@.subrange(0, i as int);
    let a0 = data[i - 4];
    let a1 = data[i - 3];
    let a2 = data[i - 2];
    let a3 = data[i - 1];
    let a4 = data[i];
    let a5 = data[i + 1];
    let a6 = data[i + 2];
    let a7 = data[i + 3];
    let a8 = data[i + 4];
    let ghost c1 = cur.push(a4);
    let ghost c2 = c1.push(a5);
    let ghost c3 = c2.push(a6);
    let ghost c4 = c3.push(a7);
    let ghost c5 = c4.push(a8);
    proof {
        assert(cur[cur.len() - 1] == a3);
        assert(cur[cur.len() - 2] == a2);
        assert(cur[cur.len() - 3] == a1);
        assert(cur[cur.len() - 4] == a0);
    }
    absorb(cd, a4, a3, a2, a1, a0, Ghost(cur));
    absorb(cd, a5, a4, a3, a2, a1, Ghost(c1));
    absorb(cd, a6, a5, a4, a3, a2, Ghost(c2));
    absorb(cd, a7, a6, a5, a4, a3, Ghost(c3));
    absorb(cd, a8, a7, a6, a5, a4, Ghost(c4));
    store_five(&mut cd.sliding_window, j, a4, a5, a6, a7, a8, Ghost(cur));
    proof {
        assert(c5 =~= s + data@.subrange(0, i + 5));
    }
}

/// Takes in position `i` of `data` through the ring window; `fed_len`
/// bytes came before it.
fn update_one(
    cd: &mut BuilderColorData,
    data: &[u8],
    i: usize,
    j: usize,
    fed_len: usize,
    Ghost(s): Ghost<Seq<u8>>,
)
    requires
        i < data@.len(),
        fed_len == s.len() + i,
        j == fed_len % 5,
        old(cd).state_ok(s + data@.subrange(0, i as int)),
    ensures
        final(cd).state_ok(s + data@.subrange(0, i + 1)),
        final(cd).pearson == old(cd).pearson,
        final(cd).finalized == old(cd).finalized,
{
    let ghost cur = s + data@.subrange(0, i as int);
    let x = data[i];
    let ghost next = cur.push(x);
    if fed_len >= WINDOW_SIZE - 1 {
        let w1 = cd.sliding_window[(j + 4) % WINDOW_SIZE];
        let w2 = cd.sliding_window[(j + 3) % WINDOW_SIZE];
        let w3 = cd.sliding_window[(j + 2) % WINDOW_SIZE];
        let w4 = cd.sliding_window[(j + 1) % WINDOW_SIZE];
        proof {
            lemma_window_read(cur, 0);
            lemma_window_read(cur, 1);
            lemma_window_read(cur, 2);
            lemma_window_read(cur, 3);
            assert((j + 4) % 5 == (fed_len - 1) % 5);
            assert((j + 3) % 5 == (fed_len - 2) % 5);
            assert((j + 2) % 5 == (fed_len - 3) % 5);
            assert((j + 1) % 5 == (fed_len - 4) % 5);
        }
        absorb(cd, x, w1, w2, w3, w4, Ghost(cur));
    } else {
        proof {
            reveal(tally_ok);
            let c = cd.pearson.color;
            assert(next.drop_last() =~= cur);
            assert forall|b: int| 0 <= b < 256 implies #[trigger] histogram(c, next)[b]
                == histogram(c, cur)[b] by {
                assert(bucket_count(c, next, b) == 0);
                assert(bucket_count(c, cur, b) == 0);
            }
            assert(histogram(c, next) =~= histogram(c, cur));
        }
    }
    store_window(&mut cd.sliding_window, j, x, Ghost(cur));
    proof {
        assert(next =~= s + data@.subrange(0, i + 1));
    }
}

/// Feeds `data` to one color whose state is that of the stream `s`.
///
/// Where nine bytes of `data` are at hand around a position, five positions
/// are taken at once straight from `data`; elsewhere the bytes go through the
/// ring window, which carries the last bytes across chunks.
fn feed_color(cd: &mut BuilderColorData, data: &[u8], data_len: usize, Ghost(s): Ghost<Seq<u8>>)
    requires
        old(cd).state_ok(s),
        data_len == s.len(),
        data_len + data@.len() <= usize::MAX,
    ensures
        final(cd).state_ok(s + data@),
        final(cd).pearson == old(cd).pearson,
        final(cd).finalized == old(cd).finalized,
{
    let len = data.len();
    let mut j: usize = data_len % WINDOW_SIZE;
    let mut fed_len: usize = data_len;
    let mut i: usize = 0;
    proof {
        assert(s + data@.subrange(0, 0) =~= s);
    }
    while i < len
        invariant
            i <= len == data@.len(),
            fed_len == data_len + i,
            data_len + len <= usize::MAX,
            data_len == s.len(),
            j == fed_len % 5,
            cd.state_ok(s + data@.subrange(0, i as int)),
            cd.pearson == old(cd).pearson,
            cd.finalized == old(cd).finalized,
        decreases len - i,
    {
        if i >= WINDOW_SIZE - 1 && len - i > 4 {
            update_five(cd, data, i, j, Ghost(s));
            i = i + 5;
            fed_len = fed_len + 5;
        } else {
            update_one(cd, data, i, j, fed_len, Ghost(s));
            i = i + 1;
            fed_len = fed_len + 1;
            j = (j + 1) % WINDOW_SIZE;
        }
    }
    proof {
        assert(data@.subrange(0, len as int) =~= data@);
    }
}

/// Calculates multiple different-color TLSH hashes of data
///
/// 1. Instantiate by the `new` method providing a slice of colors to calculate
/// 2. Call the `update` method with each chunk of data
/// 3. Call the `finalize` method
/// 4. Get the calculated TLSH hashes by `get_hashes`
pub struct ColoredTLSHBuilder {
    colors: Vec<BuilderColorData>,
    data_len: usize,
    stream: Ghost<Seq<u8>>,
}

impl ColoredTLSHBuilder {
    /// The bytes fed since creation or the last reset.
    pub closed spec fn stream(&self) -> Seq<u8> {
        self.stream@
    }

    /// The colors computed, in the order given to `new`.
    pub closed spec fn colors(&self) -> Seq<u8> {
        Seq::new(self.colors@.len(), |i: int| self.colors@[i].pearson.color)
    }

    /// Every color's state is that of the stream, and a stored result is
    /// the hash of the stream.
    pub closed spec fn wf(&self) -> bool {
        &&& self.data_len == self.stream@.len()
        &&& forall|i: int|
            0 <= i < self.colors@.len() ==> {
                let cd = #[trigger] self.colors@[i];
                &&& cd.state_ok(self.stream@)
                &&& match cd.finalized {
                    Some(r) => is_hash_of(cd.pearson.color, self.stream@, r),
                    None => true,
                }
            }
    }

    /// Every color holds its result.
    pub closed spec fn is_finalized(&self) -> bool {
        forall|i: int| 0 <= i < self.colors@.len() ==> (#[trigger] self.colors@[i]).finalized is Some
    }

    /// Create an initialized instance of TLSHBuilder
    ///
    /// # Arguments
    ///
    /// * `colors` - Slice containing the color numbers of hashes to calculate
    pub fn new(colors: &[u8]) -> (r: Self)
        ensures
            r.wf(),
            r.is_cleared(),
            r.colors() == colors@,
            r.stream() == Seq::<u8>::empty(),
    {
        let mut v: Vec<BuilderColorData> = Vec::new();
        let mut i: usize = 0;
        while i < colors.len()
            invariant
                i <= colors@.len(),
                v@.len() == i,
                forall|k: int| 0 <= k < i ==> (#[trigger] v@[k]).pearson.color == colors@[k],
                forall|k: int|
                    0 <= k < i ==> (#[trigger] v@[k]).state_ok(Seq::<u8>::empty())
                        && v@[k].finalized is None,
            decreases colors@.len() - i,
        {
            let cd = BuilderColorData {
                pearson: Pearson::new(colors[i]),
                a_bucket: [0; 256],
                checksum: 0,
                sliding_window: [0; WINDOW_SIZE],
                finalized: None,
            };
            assert(cd.a_bucket@ =~= Seq::new(256, |b: int| 0u64));
            assert(cd.sliding_window@ =~= Seq::new(5, |k: int| 0u8));
            proof {
                lemma_empty_state(cd);
            }
            v.push(cd);
            i = i + 1;
        }
        let r = ColoredTLSHBuilder { colors: v, data_len: 0, stream: Ghost(Seq::empty()) };
        assert(r.colors() =~= colors@);
        r
    }

    /// Clear the builder to reuse it to calculate the same hash colors of other data
    pub fn reset(&mut self)
        requires
            old(self).wf(),
        ensures
            final(self).wf(),
            final(self).is_cleared(),
            final(self).colors() == old(self).colors(),
            final(self).stream() == Seq::<u8>::empty(),
    {
        let n = self.colors.len();
        let ghost colors0 = self.colors();
        let mut i: usize = 0;
        while i < n
            invariant
                i <= n == self.colors@.len(),
                self.colors() == colors0,
                forall|k: int| 0 <= k < self.colors@.len() ==> (#[trigger] self.colors@[k]).pearson.wf(),
                forall|k: int|
                    0 <= k < i ==> (#[trigger] self.colors@[k]).state_ok(Seq::<u8>::empty())
                        && self.colors@[k].finalized is None,
            decreases n - i,
        {
            let mut cd = self.colors[i];
            cd.a_bucket = [0; 256];
            cd.checksum = 0;
            cd.sliding_window = [0; WINDOW_SIZE];
            cd.finalized = None;
            assert(cd.a_bucket@ =~= Seq::new(256, |b: int| 0u64));
            assert(cd.sliding_window@ =~= Seq::new(5, |k: int| 0u8));
            proof {
                lemma_empty_state(cd);
            }
            self.colors.set(i, cd);
            proof {
                assert(self.colors() =~= colors0);
            }
            i = i + 1;
        }
        self.data_len = 0;
        self.stream = Ghost(Seq::empty());
    }

    /// No color holds a result.
    pub closed spec fn is_cleared(&self) -> bool {
        forall|i: int| 0 <= i < self.colors@.len() ==> (#[trigger] self.colors@[i]).finalized is None
    }

    /// Drops the results of every color.
    fn clear_results(&mut self)
        requires
            old(self).wf(),
        ensures
            final(self).wf(),
            final(self).is_cleared(),
            final(self).colors() == old(self).colors(),
            final(self).stream() == old(self).stream(),
            final(self).data_len == old(self).data_len,
    {
        let n = self.colors.len();
        let ghost colors0 = self.colors();
        let mut i: usize = 0;
        while i < n
            invariant
                i <= n == self.colors@.len(),
                self.colors() == colors0,
                self.stream == old(self).stream,
                self.data_len == old(self).data_len,
                self.wf(),
                forall|k: int| 0 <= k < i ==> (#[trigger] self.colors@[k]).finalized is None,
            decreases n - i,
        {
            let mut cd = self.colors[i];
            cd.finalized = None;
            self.colors.set(i, cd);
            proof {
                assert(self.colors() =~= colors0);
            }
            i = i + 1;
        }
    }

    /// Feeds `data` to every color.
    fn fast_update(&mut self, data: &[u8])
        requires
            old(self).wf(),
            old(self).is_cleared(),
            old(self).stream().len() + data@.len() <= usize::MAX,
        ensures
            final(self).wf(),
            final(self).is_cleared(),
            final(self).colors() == old(self).colors(),
            final(self).stream() == old(self).stream() + data@,
    {
        let n = self.colors.len();
        let ghost colors0 = self.colors();
        let ghost s = self.stream@;
        let mut i: usize = 0;
        while i < n
            invariant
                i <= n == self.colors@.len(),
                self.colors() == colors0,
                self.stream@ == s,
                self.data_len == s.len(),
                s.len() + data@.len() <= usize::MAX,
                forall|k: int| 0 <= k < n ==> (#[trigger] self.colors@[k]).finalized is None,
                forall|k: int| 0 <= k < i ==> (#[trigger] self.colors@[k]).state_ok(s + data@),
                forall|k: int| i <= k < n ==> (#[trigger] self.colors@[k]).state_ok(s),
            decreases n - i,
        {
            let mut cd = self.colors[i];
            feed_color(&mut cd, data, self.data_len, Ghost(s));
            self.colors.set(i, cd);
            proof {
                assert(self.colors() =~= colors0);
            }
            i = i + 1;
        }
        self.data_len = self.data_len + data.len();
        self.stream = Ghost(s + data@);
    }

    /// Add the next segment of data to process
    ///
    /// Chunk boundaries do not matter: the state depends on the bytes fed
    /// in order, whatever pieces they came in.
    pub fn update(&mut self, data: &[u8])
        requires
            old(self).wf(),
            old(self).stream().len() + data@.len() <= usize::MAX,
        ensures
            final(self).wf(),
            final(self).is_cleared(),
            final(self).colors() == old(self).colors(),
            final(self).stream() == old(self).stream() + data@,
    {
        self.clear_results();
        self.fast_update(data);
    }

    /// Calculates the hashes of the processed data into every color.
    pub fn fast_finalize(&mut self)
        requires
            old(self).wf(),
        ensures
            final(self).wf(),
            final(self).is_finalized(),
            final(self).colors() == old(self).colors(),
            final(self).stream() == old(self).stream(),
    {
        let lvalue = calc_lvalue(self.data_len);
        let n = self.colors.len();
        let ghost colors0 = self.colors();
        let ghost s = self.stream@;
        let mut i: usize = 0;
        while i < n
            invariant
                i <= n == self.colors@.len(),
                self.colors() == colors0,
                self.stream@ == s,
                self.data_len == s.len(),
                lvalue == lvalue_of(s.len()),
                self.wf(),
                forall|k: int| 0 <= k < i ==> (#[trigger] self.colors@[k]).finalized is Some,
            decreases n - i,
        {
            let mut cd = self.colors[i];
            let r = match lvalue {
                Some(lv) => finalize_color(&cd, lv, Ghost(s)),
                None => Err(TLSHError::Length),
            };
            cd.finalized = Some(r);
            self.colors.set(i, cd);
            proof {
                assert(self.colors() =~= colors0);
            }
            i = i + 1;
        }
    }

    /// Calculate the hashes of the processed data
    ///
    /// Call `finalize` before `get_hashes`
    pub fn finalize(&mut self)
        requires
            old(self).wf(),
        ensures
            final(self).wf(),
            final(self).is_finalized(),
            final(self).colors() == old(self).colors(),
            final(self).stream() == old(self).stream(),
    {
        self.fast_finalize();
    }

    /// Retrieve the calculated TLSH hash objects, one per color in the order
    /// the colors were given.
    pub fn get_hashes(&self) -> (r: Vec<Result<ColoredTLSH, TLSHError>>)
        requires
            self.wf(),
            self.is_finalized(),
        ensures
            r@.len() == self.colors().len(),
            forall|i: int| 0 <= i < r@.len() ==> is_hash_of(self.colors()[i], self.stream(), #[trigger] r@[i]),
    {
        let mut v: Vec<Result<ColoredTLSH, TLSHError>> = Vec::new();
        let mut i: usize = 0;
        while i < self.colors.len()
            invariant
                self.wf(),
                self.is_finalized(),
                i <= self.colors@.len(),
                v@.len() == i,
                forall|k: int| 0 <= k < i ==> is_hash_of(self.colors()[k], self.stream(), #[trigger] v@[k]),
            decreases self.colors@.len() - i,
        {
            let r = self.colors[i].finalized.unwrap();
            v.push(r);
            i = i + 1;
        }
        v
    }

    /// The 256 bucket counts of the color at `index` in the order given to
    /// `new`.
    pub fn bucket_counts(&self, index: usize) -> (r: [u64; 256])
        requires
            self.wf(),
            index < self.colors().len(),
        ensures
            r@ == histogram(self.colors()[index as int], self.stream()),
    {
        proof {
            reveal(tally_ok);
        }
        self.colors[index].a_bucket
    }
}

/// Finalizes one color whose state is that of the stream `s`, whose length
/// class is `lvalue`.
fn finalize_color(cd: &BuilderColorData, lvalue: u8, Ghost(s): Ghost<Seq<u8>>) -> (r: Result<ColoredTLSH, TLSHError>)
    requires
        cd.state_ok(s),
        lvalue_of(s.len()) == Some(lvalue),
    ensures
        is_hash_of(cd.pearson.color, s, r),
{
    let ghost color = cd.pearson.color;
    let ghost h = eff_buckets(color, s);
    proof {
        reveal(tally_ok);
        assert(cd.a_bucket@.subrange(0, 128) == h);
    }
    let (q1, q2, q3) = find_quartile(&cd.a_bucket);
    proof {
        lemma_rank_value(h, 31, q1);
        lemma_rank_value(h, 63, q2);
        lemma_rank_value(h, 95, q3);
    }
    if q3 == 0 {
        return Err(TLSHError::Variety);
    }
    let mut nonzero: usize = 0;
    let mut i: usize = 0;
    while i < 128
        invariant
            i <= 128,
            nonzero <= i,
            nonzero == nonzero_count(h.subrange(0, i as int)),
            h == cd.a_bucket@.subrange(0, 128),
        decreases 128 - i,
    {
        if cd.a_bucket[i] > 0 {
            nonzero = nonzero + 1;
        }
        proof {
            assert(h.subrange(0, i + 1).drop_last() =~= h.subrange(0, i as int));
        }
        i = i + 1;
    }
    proof {
        assert(h.subrange(0, 128) =~= h);
    }
    if nonzero <= 64 {
        return Err(TLSHError::Variety);
    }
    let mut codes = [0u8; 32];
    let mut i: usize = 0;
    while i < 32
        invariant
            i <= 32,
            h == cd.a_bucket@.subrange(0, 128),
            forall|k: int| 0 <= k < i ==> codes@[k] == code_byte(h, k, q1, q2, q3),
        decreases 32 - i,
    {
        let c0 = classify(cd.a_bucket[4 * i], q1, q2, q3);
        let c1 = classify(cd.a_bucket[4 * i + 1], q1, q2, q3);
        let c2 = classify(cd.a_bucket[4 * i + 2], q1, q2, q3);
        let c3 = classify(cd.a_bucket[4 * i + 3], q1, q2, q3);
        codes[i] = c0 + 4 * c1 + 16 * c2 + 64 * c3;
        i = i + 1;
    }
    let q1r = ((q1 as u128 * 100) / (q3 as u128) % 16) as u8;
    let q2r = ((q2 as u128 * 100) / (q3 as u128) % 16) as u8;
    let tlsh = TLSH { checksum: cd.checksum, lvalue, q_ratios: q2r * 16 + q1r, codes };
    proof {
        assert(codes@ =~= codes_of(color, s));
    }
    Ok(ColoredTLSH { color: cd.pearson.color, tlsh })
}

/// Class of a bucket count against the quartiles.
fn classify(k: u64, q1: u64, q2: u64, q3: u64) -> (r: u8)
    ensures
        r == bucket_class(k, q1, q2, q3),
        r <= 3,
{
    if q3 < k {
        3
    } else if q2 < k {
        2
    } else if q1 < k {
        1
    } else {
        0
    }
}

impl Default for ColoredTLSHBuilder {
    /// A builder of the original TLSH hash of data alone, as `new(&[0])`.
    fn default() -> (r: Self)
        ensures
            r.wf(),
            r.colors() == seq![0u8],
            r.stream() == Seq::<u8>::empty(),
    {
        let colors: [u8; 1] = [0];
        let r = Self::new(&colors);
        assert(colors@ =~= seq![0u8]);
        r
    }
}

/// `r` is what finalizing the stream `s` gives in the original TLSH.
pub open spec fn is_plain_hash_of(s: Seq<u8>, r: Result<TLSH, TLSHError>) -> bool {
    match r {
        Ok(h) => is_tlsh_of(0, s, h),
        Err(e) => hash_error(0, s) == Some(e),
    }
}

/// Calculates the original TLSH hash of data: `update` with each chunk of
/// data, then `finalize`, then `get_hash`.
pub struct TLSHBuilder {
    color_builder: ColoredTLSHBuilder,
}

impl TLSHBuilder {
    /// The bytes fed since creation.
    pub closed spec fn stream(&self) -> Seq<u8> {
        self.color_builder.stream()
    }

    pub closed spec fn wf(&self) -> bool {
        &&& self.color_builder.wf()
        &&& self.color_builder.colors() == seq![0u8]
    }

    /// The hash of the bytes fed is held.
    pub closed spec fn is_finalized(&self) -> bool {
        self.color_builder.is_finalized()
    }

    pub fn new() -> (r: Self)
        ensures
            r.wf(),
            r.stream() == Seq::<u8>::empty(),
    {
        TLSHBuilder { color_builder: ColoredTLSHBuilder::default() }
    }

    /// Add the next segment of data to process
    pub fn update(&mut self, data: &[u8])
        requires
            old(self).wf(),
            old(self).stream().len() + data@.len() <= usize::MAX,
        ensures
            final(self).wf(),
            final(self).stream() == old(self).stream() + data@,
    {
        self.color_builder.update(data);
    }

    /// Calculate the hash of the processed data
    pub fn finalize(&mut self)
        requires
            old(self).wf(),
        ensures
            final(self).wf(),
            final(self).is_finalized(),
            final(self).stream() == old(self).stream(),
    {
        self.color_builder.finalize();
    }

    /// The calculated hash, or why there is none
    pub fn get_hash(&self) -> (r: Result<TLSH, TLSHError>)
        requires
            self.wf(),
            self.is_finalized(),
        ensures
            is_plain_hash_of(self.stream(), r),
    {
        let hashes = self.color_builder.get_hashes();
        assert(is_hash_of(self.color_builder.colors()[0], self.stream(), hashes@[0]));
        match hashes[0] {
            Ok(ch) => Ok(ch.tlsh),
            Err(e) => Err(e),
        }
    }

    /// The 256 bucket counts of the bytes fed.
    pub fn bucket_counts(&self) -> (r: [u64; 256])
        requires
            self.wf(),
        ensures
            r@ == histogram(0, self.stream()),
    {
        self.color_builder.bucket_counts(0)
    }
}

impl ColoredTLSHBuilder {
    /// Histogram, checksum and window of the color at `i`.
    pub closed spec fn color_state(&self, i: int) -> (Seq<u64>, u8, Seq<u8>) {
        let cd = self.colors@[i];
        (cd.a_bucket@, cd.checksum, cd.sliding_window@)
    }
}

/// The bytes fed decide the state, whatever pieces they came in: builders
/// of the same colors that were fed the same bytes hold the same histogram,
/// checksum and window for every color.
pub proof fn lemma_chunking_invisible(a: ColoredTLSHBuilder, b: ColoredTLSHBuilder, i: int)
    requires
        a.wf(),
        b.wf(),
        a.colors() == b.colors(),
        a.stream() == b.stream(),
        0 <= i < a.colors().len(),
    ensures
        a.color_state(i) == b.color_state(i),
{
    reveal(tally_ok);
    let ca = a.colors@[i];
    let cb = b.colors@[i];
    assert(ca.pearson.color == a.colors()[i]);
    assert(cb.pearson.color == b.colors()[i]);
}

/// Finalizing is a function of the color and the bytes fed: two results of
/// the same stream are the same.
pub proof fn lemma_hash_determined(
    color: u8,
    s: Seq<u8>,
    r1: Result<ColoredTLSH, TLSHError>,
    r2: Result<ColoredTLSH, TLSHError>,
)
    requires
        is_hash_of(color, s, r1),
        is_hash_of(color, s, r2),
    ensures
        r1 == r2,
{
    match (r1, r2) {
        (Ok(h1), Ok(h2)) => {
            assert(h1.tlsh.codes@ == h2.tlsh.codes@);
            assert(h1.tlsh.codes == h2.tlsh.codes);
        },
        _ => {},
    }
}

/// A stream shorter than the minimum length gives `Length`.
pub proof fn lemma_short_input_length_error(color: u8, s: Seq<u8>, r: Result<ColoredTLSH, TLSHError>)
    requires
        is_hash_of(color, s, r),
        s.len() < MIN_DATA_LENGTH,
    ensures
        r == Err::<ColoredTLSH, TLSHError>(TLSHError::Length),
{
}

/// A stream with a length class, a non-zero upper quartile and more than
/// half of the first 128 buckets filled gives a hash.
pub proof fn lemma_varied_input_hashes(color: u8, s: Seq<u8>, r: Result<ColoredTLSH, TLSHError>)
    requires
        is_hash_of(color, s, r),
        MIN_DATA_LENGTH <= s.len() <= u32::MAX,
        quartiles(color, s).2 > 0,
        nonzero_count(eff_buckets(color, s)) > 64,
    ensures
        r is Ok,
{
}

/// Buckets that no tri-gram of the constant window hits stay empty.
proof fn lemma_constant_bucket(color: u8, s: Seq<u8>, c: u8, b: int)
    requires
        forall|k: int| 0 <= k < s.len() ==> s[k] == c,
        window_hits(color, c, c, c, c, c, b) == 0,
    ensures
        bucket_count(color, s, b) == 0,
    decreases s.len(),
{
    if s.len() >= 5 {
        lemma_constant_bucket(color, s.drop_last(), c, b);
    }
}

/// How many of the six tri-gram buckets `v` are below `n`.
spec fn count_below_n(v: Seq<u8>, n: int) -> int {
    (if (v[0] as int) < n { 1int } else { 0int }) + (if (v[1] as int) < n { 1int } else { 0int }) + (if (v[2] as int) < n { 1int } else { 0int })
        + (if (v[3] as int) < n { 1int } else { 0int }) + (if (v[4] as int) < n { 1int } else { 0int }) + (if (v[5] as int) < n { 1int } else { 0int })
}

proof fn lemma_constant_nonzero(color: u8, s: Seq<u8>, c: u8, v: Seq<u8>, n: int)
    requires
        0 <= n <= 128,
        forall|k: int| 0 <= k < s.len() ==> s[k] == c,
        v.len() == 6,
        forall|t: int| 0 <= t < 6 ==> v[t] == trigram_bucket(color, t, c, c, c, c, c),
    ensures
        nonzero_count(eff_buckets(color, s).subrange(0, n)) <= count_below_n(v, n),
    decreases n,
{
    let h = eff_buckets(color, s);
    if n > 0 {
        lemma_constant_nonzero(color, s, c, v, n - 1);
        assert(h.subrange(0, n).drop_last() =~= h.subrange(0, n - 1));
        if h[n - 1] > 0 && window_hits(color, c, c, c, c, c, n - 1) == 0 {
            lemma_constant_bucket(color, s, c, n - 1);
        }
    }
}

/// A stream of one repeated byte, long enough to have a length class, lacks
/// variety.
pub proof fn lemma_constant_input_lacks_variety(
    color: u8,
    s: Seq<u8>,
    c: u8,
    r: Result<ColoredTLSH, TLSHError>,
)
    requires
        is_hash_of(color, s, r),
        lvalue_of(s.len()) is Some,
        forall|k: int| 0 <= k < s.len() ==> s[k] == c,
    ensures
        r == Err::<ColoredTLSH, TLSHError>(TLSHError::Variety),
{
    let v = seq![
        trigram_bucket(color, 0, c, c, c, c, c),
        trigram_bucket(color, 1, c, c, c, c, c),
        trigram_bucket(color, 2, c, c, c, c, c),
        trigram_bucket(color, 3, c, c, c, c, c),
        trigram_bucket(color, 4, c, c, c, c, c),
        trigram_bucket(color, 5, c, c, c, c, c),
    ];
    let h = eff_buckets(color, s);
    lemma_constant_nonzero(color, s, c, v, 128);
    assert(h.subrange(0, 128) =~= h);
}

} // verus!
