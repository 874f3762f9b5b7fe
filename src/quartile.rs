//! Quartiles of the first 128 buckets by quickselect.
use vstd::prelude::*;

verus! {

/// Number of elements of `s` below `v`.
pub open spec fn count_below(s: Seq<u64>, v: u64) -> nat
    decreases s.len(),
{
    if s.len() == 0 {
        0
    } else {
        count_below(s.drop_last(), v) + if s.last() < v { 1nat } else { 0nat }
    }
}

/// Number of elements of `s` at most `v`.
pub open spec fn count_upto(s: Seq<u64>, v: u64) -> nat
    decreases s.len(),
{
    if s.len() == 0 {
        0
    } else {
        count_upto(s.drop_last(), v) + if s.last() <= v { 1nat } else { 0nat }
    }
}

/// `v` is the element at index `k` of `s` sorted in ascending order.
pub open spec fn is_rank(s: Seq<u64>, k: int, v: u64) -> bool {
    count_below(s, v) <= k < count_upto(s, v)
}

/// The element at index `k` of `s` sorted in ascending order.
pub open spec fn rank_value(s: Seq<u64>, k: int) -> u64 {
    choose|v: u64| is_rank(s, k, v)
}

/// `a` and `b` hold the same elements, counted with multiplicity.
pub open spec fn same_ranks(a: Seq<u64>, b: Seq<u64>) -> bool {
    forall|v: u64|
        #![trigger count_below(a, v)]
        #![trigger count_below(b, v)]
        #![trigger count_upto(a, v)]
        #![trigger count_upto(b, v)]
        count_below(a, v) == count_below(b, v) && count_upto(a, v) == count_upto(b, v)
}

/// Every element before index `t` is at most every element from `t` on.
pub open spec fn split_at(s: Seq<u64>, t: int) -> bool {
    forall|i: int, j: int| 0 <= i < t <= j < s.len() ==> #[trigger] s[i] <= #[trigger] s[j]
}

proof fn lemma_count_concat(a: Seq<u64>, b: Seq<u64>, v: u64)
    ensures
        count_below(a + b, v) == count_below(a, v) + count_below(b, v),
        count_upto(a + b, v) == count_upto(a, v) + count_upto(b, v),
    decreases b.len(),
{
    if b.len() == 0 {
        assert(a + b =~= a);
    } else {
        lemma_count_concat(a, b.drop_last(), v);
        assert((a + b).drop_last() =~= a + b.drop_last());
    }
}

proof fn lemma_count_bounds(s: Seq<u64>, v: u64)
    ensures
        count_below(s, v) <= count_upto(s, v) <= s.len(),
    decreases s.len(),
{
    if s.len() > 0 {
        lemma_count_bounds(s.drop_last(), v);
    }
}

proof fn lemma_below_none(s: Seq<u64>, v: u64)
    requires
        forall|i: int| 0 <= i < s.len() ==> v <= #[trigger] s[i],
    ensures
        count_below(s, v) == 0,
    decreases s.len(),
{
    if s.len() > 0 {
        lemma_below_none(s.drop_last(), v);
    }
}

proof fn lemma_below_none_at(s: Seq<u64>, v: u64, i: int)
    requires
        count_below(s, v) == 0,
        0 <= i < s.len(),
    ensures
        v <= s[i],
    decreases s.len(),
{
    if i < s.len() - 1 {
        lemma_below_none_at(s.drop_last(), v, i);
    }
}

proof fn lemma_upto_all(s: Seq<u64>, v: u64)
    requires
        forall|i: int| 0 <= i < s.len() ==> #[trigger] s[i] <= v,
    ensures
        count_upto(s, v) == s.len(),
    decreases s.len(),
{
    if s.len() > 0 {
        lemma_upto_all(s.drop_last(), v);
    }
}

proof fn lemma_upto_all_at(s: Seq<u64>, v: u64, i: int)
    requires
        count_upto(s, v) == s.len(),
        0 <= i < s.len(),
    ensures
        s[i] <= v,
    decreases s.len(),
{
    lemma_count_bounds(s.drop_last(), v);
    if i < s.len() - 1 {
        lemma_upto_all_at(s.drop_last(), v, i);
    }
}

proof fn lemma_count_mono(s: Seq<u64>, v: u64, w: u64)
    requires
        v < w,
    ensures
        count_upto(s, v) <= count_below(s, w),
    decreases s.len(),
{
    if s.len() > 0 {
        lemma_count_mono(s.drop_last(), v, w);
    }
}

/// At most one value stands at a given index of the sorted sequence.
pub proof fn lemma_rank_unique(s: Seq<u64>, k: int, v: u64, w: u64)
    requires
        is_rank(s, k, v),
        is_rank(s, k, w),
    ensures
        v == w,
{
    if v < w {
        lemma_count_mono(s, v, w);
    } else if w < v {
        lemma_count_mono(s, w, v);
    }
}

/// A value at index `k` of the sorted sequence is `rank_value(s, k)`.
pub proof fn lemma_rank_value(s: Seq<u64>, k: int, v: u64)
    requires
        is_rank(s, k, v),
    ensures
        rank_value(s, k) == v,
{
    lemma_rank_unique(s, k, v, rank_value(s, k));
}

proof fn lemma_swap_ranks(s: Seq<u64>, a: int, b: int)
    requires
        0 <= a < s.len(),
        0 <= b < s.len(),
    ensures
        same_ranks(s.update(a, s[b]).update(b, s[a]), s),
{
    let t = s.update(a, s[b]).update(b, s[a]);
    if a == b {
        assert(t =~= s);
    } else {
        let x = if a < b { a } else { b };
        let y = if a < b { b } else { a };
        let p = s.subrange(0, x);
        let m = s.subrange(x + 1, y);
        let q = s.subrange(y + 1, s.len() as int);
        let sx = seq![s[x]];
        let sy = seq![s[y]];
        assert(s =~= p + sx + m + sy + q);
        assert(t =~= p + sy + m + sx + q);
        assert forall|v: u64|
            count_below(t, v) == count_below(s, v) && count_upto(t, v) == count_upto(s, v) by {
            lemma_count_concat(p + sx + m + sy, q, v);
            lemma_count_concat(p + sx + m, sy, v);
            lemma_count_concat(p + sx, m, v);
            lemma_count_concat(p, sx, v);
            lemma_count_concat(p + sy + m + sx, q, v);
            lemma_count_concat(p + sy + m, sx, v);
            lemma_count_concat(p + sy, m, v);
            lemma_count_concat(p, sy, v);
        }
    }
}

proof fn lemma_same_ranks_trans(a: Seq<u64>, b: Seq<u64>, c: Seq<u64>)
    requires
        same_ranks(a, b),
        same_ranks(b, c),
    ensures
        same_ranks(a, c),
{
    assert forall|v: u64|
        count_below(a, v) == count_below(c, v) && count_upto(a, v) == count_upto(c, v) by {
        assert(count_below(a, v) == count_below(b, v));
        assert(count_upto(a, v) == count_upto(b, v));
    }
}

proof fn lemma_same_ranks_rank(a: Seq<u64>, b: Seq<u64>, k: int, v: u64)
    requires
        same_ranks(a, b),
        is_rank(a, k, v),
    ensures
        is_rank(b, k, v),
{
    assert(count_below(a, v) == count_below(b, v));
    assert(count_upto(a, v) == count_upto(b, v));
}

proof fn lemma_segment_ranks(a: Seq<u64>, b: Seq<u64>, l: int, r: int)
    requires
        a.len() == b.len(),
        0 <= l <= r < a.len(),
        forall|k: int| 0 <= k < a.len() && (k < l || k > r) ==> a[k] == b[k],
        same_ranks(a.subrange(l, r + 1), b.subrange(l, r + 1)),
    ensures
        same_ranks(a, b),
{
    let n = a.len() as int;
    assert(a =~= a.subrange(0, l) + a.subrange(l, r + 1) + a.subrange(r + 1, n));
    assert(b =~= b.subrange(0, l) + b.subrange(l, r + 1) + b.subrange(r + 1, n));
    assert(a.subrange(0, l) =~= b.subrange(0, l));
    assert(a.subrange(r + 1, n) =~= b.subrange(r + 1, n));
    assert forall|v: u64|
        count_below(a, v) == count_below(b, v) && count_upto(a, v) == count_upto(b, v) by {
        lemma_count_concat(a.subrange(0, l) + a.subrange(l, r + 1), a.subrange(r + 1, n), v);
        lemma_count_concat(a.subrange(0, l), a.subrange(l, r + 1), v);
        lemma_count_concat(b.subrange(0, l) + b.subrange(l, r + 1), b.subrange(r + 1, n), v);
        lemma_count_concat(b.subrange(0, l), b.subrange(l, r + 1), v);
    }
}

/// A split point outside a rearranged range stays a split point.
proof fn lemma_split_kept(a: Seq<u64>, b: Seq<u64>, l: int, r: int, t: int)
    requires
        a.len() == b.len(),
        0 <= l <= r < a.len(),
        forall|k: int| 0 <= k < a.len() && (k < l || k > r) ==> a[k] == b[k],
        same_ranks(a.subrange(l, r + 1), b.subrange(l, r + 1)),
        split_at(a, t),
        t <= l || t > r,
    ensures
        split_at(b, t),
{
    let sa = a.subrange(l, r + 1);
    let sb = b.subrange(l, r + 1);
    assert forall|i: int, j: int| 0 <= i < t <= j < b.len() implies #[trigger] b[i] <= #[trigger] b[j] by {
        if t <= l {
            if l <= j <= r {
                assert forall|k: int| 0 <= k < sa.len() implies a[i] <= #[trigger] sa[k] by {
                    assert(sa[k] == a[l + k]);
                }
                lemma_below_none(sa, a[i]);
                lemma_below_none_at(sb, a[i], j - l);
            }
        } else {
            if l <= i <= r {
                assert forall|k: int| 0 <= k < sa.len() implies #[trigger] sa[k] <= a[j] by {
                    assert(sa[k] == a[l + k]);
                }
                lemma_upto_all(sa, a[j]);
                lemma_upto_all_at(sb, a[j], i - l);
            }
        }
    }
}

/// Partitioning a range at `p` inside two split points makes `p` and
/// `p + 1` split points.
proof fn lemma_split_at_pivot(s: Seq<u64>, l: int, r: int, p: int)
    requires
        0 <= l <= p <= r < s.len(),
        split_at(s, l),
        split_at(s, r + 1),
        forall|i: int| l <= i < p ==> #[trigger] s[i] <= s[p],
        forall|j: int| p < j <= r ==> s[p] <= #[trigger] s[j],
    ensures
        split_at(s, p),
        split_at(s, p + 1),
{
    assert forall|i: int, j: int| 0 <= i < p <= j < s.len() implies #[trigger] s[i] <= #[trigger] s[j] by {
        if i >= l && j <= r {
            assert(s[i] <= s[p]);
            if j > p {
                assert(s[p] <= s[j]);
            }
        }
    }
    assert forall|i: int, j: int| 0 <= i < p + 1 <= j < s.len() implies #[trigger] s[i] <= #[trigger] s[j] by {
        if i >= l && j <= r {
            assert(s[p] <= s[j]);
            if i < p {
                assert(s[i] <= s[p]);
            }
        }
    }
}

/// An element between two adjacent split points stands at its sorted index.
proof fn lemma_rank_at(s: Seq<u64>, p: int)
    requires
        0 <= p < s.len(),
        split_at(s, p),
        split_at(s, p + 1),
    ensures
        is_rank(s, p, s[p]),
{
    let v = s[p];
    let pre = s.subrange(0, p);
    let one = s.subrange(p, p + 1);
    let post = s.subrange(p + 1, s.len() as int);
    assert(s =~= pre + one + post);
    lemma_count_concat(pre + one, post, v);
    lemma_count_concat(pre, one, v);
    assert forall|k: int| 0 <= k < post.len() implies v <= #[trigger] post[k] by {
        assert(post[k] == s[p + 1 + k]);
    }
    lemma_below_none(post, v);
    assert forall|k: int| 0 <= k < pre.len() implies #[trigger] pre[k] <= v by {
        assert(pre[k] == s[k]);
    }
    lemma_upto_all(pre, v);
    lemma_count_bounds(pre, v);
    lemma_count_bounds(post, v);
    assert(one.drop_last() =~= Seq::<u64>::empty());
    assert(count_below(Seq::<u64>::empty(), v) == 0);
    assert(count_upto(Seq::<u64>::empty(), v) == 0);
    assert(one.last() == v);
    assert(count_below(one, v) == 0);
    assert(count_upto(one, v) == 1);
}

/// Exchanges two elements of the range `[l, r]`.
fn swap_in(buf: &mut [u64; 128], l: usize, r: usize, a: usize, b: usize)
    requires
        l <= a <= r,
        l <= b <= r,
        r < 128,
    ensures
        final(buf)@ == old(buf)@.update(a as int, old(buf)@[b as int]).update(b as int, old(buf)@[a as int]),
        same_ranks(final(buf)@.subrange(l as int, r + 1), old(buf)@.subrange(l as int, r + 1)),
{
    let ghost seg = buf@.subrange(l as int, r + 1);
    let t = buf[a];
    buf[a] = buf[b];
    buf[b] = t;
    proof {
        lemma_swap_ranks(seg, a - l, b - l);
        assert(buf@.subrange(l as int, r + 1) =~= seg.update(a - l, seg[b - l]).update(b - l, seg[a - l]));
    }
}

/// Partitions `buf[left..=right]` around its middle element and returns the
/// index where that element ends: smaller elements before it, the others after.
fn partition(buf: &mut [u64; 128], left: usize, right: usize) -> (ret: usize)
    requires
        left <= right < 128,
    ensures
        left <= ret <= right,
        forall|i: int| left <= i < ret ==> #[trigger] final(buf)@[i] < final(buf)@[ret as int],
        forall|j: int| ret < j <= right ==> final(buf)@[ret as int] <= #[trigger] final(buf)@[j],
        right > left + 1 ==> final(buf)@[ret as int] == old(buf)@[((left + right) / 2) as int],
        forall|k: int| 0 <= k < 128 && (k < left || k > right) ==> #[trigger] final(buf)@[k] == old(buf)@[k],
        same_ranks(final(buf)@.subrange(left as int, right + 1), old(buf)@.subrange(left as int, right + 1)),
{
    let ghost seg0 = buf@.subrange(left as int, right + 1);
    if left == right {
        return left;
    }
    if left + 1 == right {
        if buf[left] > buf[right] {
            swap_in(buf, left, right, left, right);
        }
        return left;
    }
    let mut ret = left;
    let pivot = (left + right) / 2;
    let val = buf[pivot];
    swap_in(buf, left, right, pivot, right);
    let mut i = left;
    while i < right
        invariant
            left <= ret <= i <= right,
            right < 128,
            buf@[right as int] == val,
            val == old(buf)@[pivot as int],
            pivot == (left + right) / 2,
            forall|k: int| left <= k < ret ==> #[trigger] buf@[k] < val,
            forall|k: int| ret <= k < i ==> #[trigger] buf@[k] >= val,
            forall|k: int| 0 <= k < 128 && (k < left || k > right) ==> #[trigger] buf@[k] == old(buf)@[k],
            same_ranks(buf@.subrange(left as int, right + 1), seg0),
        decreases right - i,
    {
        if buf[i] < val {
            swap_in(buf, left, right, ret, i);
            ret = ret + 1;
        }
        i = i + 1;
    }
    swap_in(buf, left, right, ret, right);
    ret
}

/// One partition of `buf[l..=r]`, where `l` and `r + 1` are split points:
/// the returned index and the one after it become split points too.
fn select_step(buf: &mut [u64; 128], l: usize, r: usize) -> (ret: usize)
    requires
        l <= r < 128,
        split_at(old(buf)@, l as int),
        split_at(old(buf)@, r + 1),
    ensures
        l <= ret <= r,
        split_at(final(buf)@, ret as int),
        split_at(final(buf)@, ret + 1),
        same_ranks(final(buf)@, old(buf)@),
        forall|t: int| (t <= l || t > r) && split_at(old(buf)@, t) ==> #[trigger] split_at(final(buf)@, t),
{
    let ghost before = buf@;
    let ret = partition(buf, l, r);
    proof {
        lemma_segment_ranks(buf@, before, l as int, r as int);
        lemma_split_kept(before, buf@, l as int, r as int, l as int);
        lemma_split_kept(before, buf@, l as int, r as int, r + 1);
        assert forall|t: int| (t <= l || t > r) && split_at(before, t) implies #[trigger] split_at(buf@, t) by {
            lemma_split_kept(before, buf@, l as int, r as int, t);
        }
        lemma_split_at_pivot(buf@, l as int, r as int, ret as int);
    }
    ret
}

/// Quickselect on `buf[l..=r]` for index `p`, where `l` and `r + 1` are
/// split points: afterwards `p` holds its sorted element.
fn select(buf: &mut [u64; 128], lo: usize, hi: usize, p: usize) -> (v: u64)
    requires
        lo <= p <= hi < 128,
        split_at(old(buf)@, lo as int),
        split_at(old(buf)@, hi + 1),
    ensures
        v == final(buf)@[p as int],
        split_at(final(buf)@, p as int),
        split_at(final(buf)@, p + 1),
        same_ranks(final(buf)@, old(buf)@),
        forall|t: int| (t <= lo || t > hi) && split_at(old(buf)@, t) ==> #[trigger] split_at(final(buf)@, t),
{
    let ghost start = buf@;
    let mut l = lo;
    let mut r = hi;
    loop
        invariant
            lo <= l <= p <= r <= hi < 128,
            start == old(buf)@,
            split_at(buf@, l as int),
            split_at(buf@, r + 1),
            same_ranks(buf@, start),
            forall|t: int| (t <= lo || t > hi) && split_at(start, t) ==> #[trigger] split_at(buf@, t),
        decreases r - l,
    {
        let ghost before = buf@;
        let ret = partition(buf, l, r);
        proof {
            lemma_segment_ranks(buf@, before, l as int, r as int);
            lemma_split_kept(before, buf@, l as int, r as int, l as int);
            lemma_split_kept(before, buf@, l as int, r as int, r + 1);
            assert forall|t: int| (t <= lo || t > hi) && split_at(start, t) implies #[trigger] split_at(buf@, t) by {
                assert(split_at(before, t));
                lemma_split_kept(before, buf@, l as int, r as int, t);
            }
            lemma_split_at_pivot(buf@, l as int, r as int, ret as int);
            lemma_same_ranks_trans(buf@, before, start);
        }
        if ret > p {
            r = ret - 1;
        } else if ret < p {
            l = ret + 1;
        } else {
            return buf[p];
        }
    }
}

/// The elements at sorted indices 31, 63 and 95 of the first 128 buckets.
///
/// Quickselect finds the median first and remembers the pivots that it
/// placed on either side; the lower and upper quartiles are then selected
/// only inside the ranges those pivots bracket.
pub fn find_quartile(bucket: &[u64; 256]) -> (r: (u64, u64, u64))
    ensures
        is_rank(bucket@.subrange(0, 128), 31, r.0),
        is_rank(bucket@.subrange(0, 128), 63, r.1),
        is_rank(bucket@.subrange(0, 128), 95, r.2),
{
    let ghost orig = bucket@.subrange(0, 128);
    let mut buf = [0u64; 128];
    let mut short_cut_left = [0usize; 128];
    let mut short_cut_right = [0usize; 128];
    let mut spl: usize = 0;
    let mut spr: usize = 0;
    let rank1: usize = 31;
    let rank2: usize = 63;
    let rank3: usize = 95;
    let end: usize = 127;

    let mut k: usize = 0;
    while k < 128
        invariant
            k <= 128,
            forall|m: int| 0 <= m < k ==> buf@[m] == bucket@[m],
        decreases 128 - k,
    {
        buf[k] = bucket[k];
        k = k + 1;
    }
    assert(buf@ =~= orig);

    let mut l: usize = 0;
    let mut r: usize = end;
    let mut q2: u64 = 0;
    loop
        invariant_except_break
            l <= rank2 <= r <= end,
            split_at(buf@, l as int),
            split_at(buf@, r + 1),
            spl <= l,
            spr + r <= end,
            forall|m: int| 0 <= m < spl ==> #[trigger] short_cut_left@[m] + 1 <= l,
            forall|m: int| 0 <= m < spr ==> #[trigger] short_cut_right@[m] > r,
            forall|m: int| 0 <= m < spr ==> #[trigger] short_cut_right@[m] <= end,
        invariant
            rank1 == 31 && rank2 == 63 && rank3 == 95 && end == 127,
            same_ranks(buf@, orig),
            forall|m: int| 0 <= m < spl ==> split_at(buf@, #[trigger] short_cut_left@[m] as int)
                && split_at(buf@, short_cut_left@[m] + 1),
            forall|m: int| 0 <= m < spr ==> split_at(buf@, #[trigger] short_cut_right@[m] as int)
                && split_at(buf@, short_cut_right@[m] + 1),
        ensures
            spl <= rank2 && spr <= end - rank2,
            split_at(buf@, rank2 as int),
            split_at(buf@, rank2 + 1),
            is_rank(orig, 63, q2),
            forall|m: int| 0 <= m < spl ==> #[trigger] short_cut_left@[m] < rank2,
            forall|m: int| 0 <= m < spr ==> #[trigger] short_cut_right@[m] > rank2,
            forall|m: int| 0 <= m < spr ==> #[trigger] short_cut_right@[m] <= end,
        decreases r - l,
    {
        let ghost before = buf@;
        let ghost bl = short_cut_left@;
        let ghost br = short_cut_right@;
        let ret = select_step(&mut buf, l, r);
        proof {
            lemma_same_ranks_trans(buf@, before, orig);
            assert forall|m: int| 0 <= m < spl implies split_at(buf@, #[trigger] bl[m] as int)
                && split_at(buf@, bl[m] + 1) by {
                assert(split_at(before, bl[m] as int));
                assert(split_at(before, bl[m] + 1));
            }
            assert forall|m: int| 0 <= m < spr implies split_at(buf@, #[trigger] br[m] as int)
                && split_at(buf@, br[m] + 1) by {
                assert(split_at(before, br[m] as int));
                assert(split_at(before, br[m] + 1));
            }
        }
        if ret > rank2 {
            r = ret - 1;
            short_cut_right[spr] = ret;
            spr = spr + 1;
        } else if ret < rank2 {
            l = ret + 1;
            short_cut_left[spl] = ret;
            spl = spl + 1;
        } else {
            q2 = buf[rank2];
            proof {
                lemma_rank_at(buf@, rank2 as int);
                lemma_same_ranks_rank(buf@, orig, 63, q2);
            }
            break;
        }
    }

    short_cut_left[spl] = rank2 - 1;
    short_cut_right[spr] = rank2 + 1;

    let mut q1: u64 = 0;
    let mut l: usize = 0;
    let mut i: usize = 0;
    loop
        invariant_except_break
            i <= spl,
            l <= rank1,
            split_at(buf@, l as int),
            split_at(buf@, rank2 as int),
            forall|m: int| 0 <= m < spl ==> split_at(buf@, #[trigger] short_cut_left@[m] as int)
                && split_at(buf@, short_cut_left@[m] + 1),
        invariant
            rank1 == 31 && rank2 == 63 && rank3 == 95 && end == 127,
            spl <= rank2 && spr <= end - rank2,
            short_cut_left@[spl as int] == rank2 - 1,
            short_cut_right@[spr as int] == rank2 + 1,
            same_ranks(buf@, orig),
            split_at(buf@, rank2 + 1),
            forall|m: int| 0 <= m < spl ==> #[trigger] short_cut_left@[m] < rank2,
            forall|m: int| 0 <= m < spr ==> #[trigger] short_cut_right@[m] > rank2,
            forall|m: int| 0 <= m < spr ==> #[trigger] short_cut_right@[m] <= end,
            forall|m: int| 0 <= m < spr ==> split_at(buf@, #[trigger] short_cut_right@[m] as int)
                && split_at(buf@, short_cut_right@[m] + 1),
        ensures
            is_rank(orig, 31, q1),
        decreases spl - i,
    {
        let r = short_cut_left[i];
        if r > rank1 {
            let ghost before = buf@;
            let ghost br = short_cut_right@;
            q1 = select(&mut buf, l, r, rank1);
            proof {
                assert forall|m: int| 0 <= m < spr implies split_at(buf@, #[trigger] br[m] as int)
                    && split_at(buf@, br[m] + 1) by {
                    assert(split_at(before, br[m] as int));
                    assert(split_at(before, br[m] + 1));
                }
                lemma_rank_at(buf@, rank1 as int);
                lemma_same_ranks_trans(buf@, before, orig);
                lemma_same_ranks_rank(buf@, orig, 31, q1);
            }
            break;
        } else if r < rank1 {
            l = r;
        } else {
            q1 = buf[rank1];
            proof {
                lemma_rank_at(buf@, rank1 as int);
                lemma_same_ranks_rank(buf@, orig, 31, q1);
            }
            break;
        }
        i = i + 1;
    }

    let mut q3: u64 = 0;
    let mut r: usize = end;
    let mut i: usize = 0;
    loop
        invariant_except_break
            i <= spr,
            rank3 <= r <= end,
            split_at(buf@, r + 1),
            split_at(buf@, rank2 + 1),
            forall|m: int| 0 <= m < spr ==> split_at(buf@, #[trigger] short_cut_right@[m] as int)
                && split_at(buf@, short_cut_right@[m] + 1),
        invariant
            rank1 == 31 && rank2 == 63 && rank3 == 95 && end == 127,
            spr <= end - rank2,
            short_cut_right@[spr as int] == rank2 + 1,
            same_ranks(buf@, orig),
            forall|m: int| 0 <= m < spr ==> #[trigger] short_cut_right@[m] > rank2,
            forall|m: int| 0 <= m < spr ==> #[trigger] short_cut_right@[m] <= end,
        ensures
            is_rank(orig, 95, q3),
        decreases spr - i,
    {
        let l = short_cut_right[i];
        if l < rank3 {
            let ghost before = buf@;
            q3 = select(&mut buf, l, r, rank3);
            proof {
                lemma_rank_at(buf@, rank3 as int);
                lemma_same_ranks_trans(buf@, before, orig);
                lemma_same_ranks_rank(buf@, orig, 95, q3);
            }
            break;
        } else if l > rank3 {
            r = l;
        } else {
            q3 = buf[rank3];
            proof {
                lemma_rank_at(buf@, rank3 as int);
                lemma_same_ranks_rank(buf@, orig, 95, q3);
            }
            break;
        }
        i = i + 1;
    }

    (q1, q2, q3)
}

} // verus!
