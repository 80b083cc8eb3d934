//! Colour statistics of RGBA grids: a capped count of distinct colours and
//! the normalized per-channel variance.

use crate::batch::{lemma_ranges_within, ParallelProcessor};
use crate::features::RATIO_ONE;
use crate::raster::OptimizedImageBuffer;
use std::collections::{HashMap, HashSet};
use vstd::prelude::*;

verus! {

broadcast use vstd::std_specs::hash::group_hash_axioms;

/// Most distinct colours the histogram tracks.
pub const COLOR_CAP: usize = 65536;

/// Colour of pixel `p` of interleaved RGBA samples, packed as `0xRRGGBB`.
pub open spec fn color_key(s: Seq<u8>, p: int) -> u32 {
    ((s[4 * p] as int) * 65536 + (s[4 * p + 1] as int) * 256 + (s[4 * p + 2] as int)) as u32
}

/// Distinct colours of the first `n` pixels; once 65536 are known no new
/// colour is added.
pub open spec fn seen_colors(s: Seq<u8>, n: nat) -> Set<u32>
    decreases n,
{
    if n == 0 {
        Set::empty()
    } else {
        let prev = seen_colors(s, (n - 1) as nat);
        if prev.len() < 65536 {
            prev.insert(color_key(s, n - 1))
        } else {
            prev
        }
    }
}

/// Sum of channel `c` over the first `n` pixels.
pub open spec fn channel_sum(s: Seq<u8>, n: nat, c: int) -> int
    decreases n,
{
    if n == 0 {
        0
    } else {
        channel_sum(s, (n - 1) as nat, c) + s[4 * (n - 1) + c] as int
    }
}

/// Sum of the squares of channel `c` over the first `n` pixels.
pub open spec fn channel_sq_sum(s: Seq<u8>, n: nat, c: int) -> int
    decreases n,
{
    if n == 0 {
        0
    } else {
        channel_sq_sum(s, (n - 1) as nat, c) + (s[4 * (n - 1) + c] as int) * (s[4 * (n - 1) + c] as int)
    }
}

/// `n` times the summed squared deviation of channel `c` over `n` pixels.
pub open spec fn scaled_deviation(s: Seq<u8>, n: nat, c: int) -> int {
    let d: int = (n as int) * channel_sq_sum(s, n, c) - channel_sum(s, n, c) * channel_sum(s, n, c);
    if d < 0 {
        0
    } else {
        d
    }
}

/// Mean of the three channel variances divided by `255^2`, in fixed point,
/// rounded down and capped at 1; zero for an empty grid.
pub open spec fn color_variance_of(s: Seq<u8>, n: nat) -> int {
    let num = scaled_deviation(s, n, 0) + scaled_deviation(s, n, 1) + scaled_deviation(s, n, 2);
    let den: int = 3 * (n as int) * (n as int) * 65025;
    if n == 0 {
        0
    } else if num * 10000 / den > 10000 {
        10000
    } else {
        num * 10000 / den
    }
}

proof fn lemma_seen_bounded(s: Seq<u8>, n: nat)
    ensures
        seen_colors(s, n).finite(),
        seen_colors(s, n).len() <= 65536,
    decreases n,
{
    if n > 0 {
        lemma_seen_bounded(s, (n - 1) as nat);
    }
}

/// Number of distinct colours among the pixels of an RGBA grid, counting at
/// most 65536.
pub fn estimate_color_count(rgba: &OptimizedImageBuffer) -> (r: u32)
    requires
        rgba@.wf(),
        rgba@.channels == 4,
    ensures
        r == seen_colors(rgba@.data, rgba@.data.len() / 4).len(),
        r <= 65536,
{
    let data = rgba.data();
    let pixels = data.len() / 4;
    let mut set: HashSet<u32> = HashSet::new();
    let mut p: usize = 0;
    while p < pixels
        invariant
            data@ == rgba@.data,
            pixels == data@.len() / 4,
            data@.len() <= usize::MAX,
            p <= pixels,
            set@ == seen_colors(data@, p as nat),
        decreases pixels - p,
    {
        proof {
            lemma_seen_bounded(data@, p as nat);
        }
        if set.len() < COLOR_CAP {
            let key = (data[4 * p] as u32) * 65536 + (data[4 * p + 1] as u32) * 256 + (data[4 * p + 2] as u32);
            set.insert(key);
        }
        p = p + 1;
    }
    proof {
        lemma_seen_bounded(data@, pixels as nat);
    }
    set.len() as u32
}

proof fn lemma_sums_bounded(s: Seq<u8>, n: nat, c: int)
    requires
        0 <= c < 4,
        4 * n <= s.len(),
    ensures
        0 <= channel_sum(s, n, c) <= 255 * n,
        0 <= channel_sq_sum(s, n, c) <= 65025 * n,
    decreases n,
{
    if n > 0 {
        lemma_sums_bounded(s, (n - 1) as nat, c);
        let x = s[4 * (n - 1) + c] as int;
        assert(x * x <= 65025) by (nonlinear_arith)
            requires
                0 <= x <= 255,
        ;
        assert(x * x >= 0) by (nonlinear_arith);
    }
}

fn deviation(n: u128, sum: u128, sq: u128) -> (r: u128)
    requires
        n <= 0xffff_ffff,
        sum <= 255 * n,
        sq <= 65025 * n,
    ensures
        r == (if n * sq >= sum * sum { n * sq - sum * sum } else { 0 }),
        r <= 0xffff_ffff * 0xffff_ffff * 65025,
{
    proof {
        assert(n * sq <= 0xffff_ffff * (65025 * 0xffff_ffff)) by (nonlinear_arith)
            requires
                n <= 0xffff_ffff,
                sq <= 65025 * n,
        ;
        assert(sum <= 255 * 0xffff_ffffu128);
        assert(sum * sum <= (255 * 0xffff_ffffu128) * (255 * 0xffff_ffffu128)) by (nonlinear_arith)
            requires
                sum <= 255 * 0xffff_ffffu128,
        ;
    }
    let a = n * sq;
    let b = sum * sum;
    if a >= b {
        a - b
    } else {
        0
    }
}

/// Normalized colour variance of an RGBA grid of at most `2^32 - 1` pixels.
pub fn calculate_color_variance(rgba: &OptimizedImageBuffer) -> (r: u32)
    requires
        rgba@.wf(),
        rgba@.channels == 4,
        rgba@.data.len() / 4 <= 0xffff_ffff,
    ensures
        r == color_variance_of(rgba@.data, rgba@.data.len() / 4),
        r <= RATIO_ONE,
{
    let data = rgba.data();
    let pixels = data.len() / 4;
    let mut s0: u128 = 0;
    let mut s1: u128 = 0;
    let mut s2: u128 = 0;
    let mut q0: u128 = 0;
    let mut q1: u128 = 0;
    let mut q2: u128 = 0;
    let mut p: usize = 0;
    while p < pixels
        invariant
            data@ == rgba@.data,
            pixels == data@.len() / 4,
            data@.len() <= usize::MAX,
            pixels <= 0xffff_ffff,
            p <= pixels,
            s0 == channel_sum(data@, p as nat, 0),
            s1 == channel_sum(data@, p as nat, 1),
            s2 == channel_sum(data@, p as nat, 2),
            q0 == channel_sq_sum(data@, p as nat, 0),
            q1 == channel_sq_sum(data@, p as nat, 1),
            q2 == channel_sq_sum(data@, p as nat, 2),
        decreases pixels - p,
    {
        proof {
            lemma_sums_bounded(data@, p as nat, 0);
            lemma_sums_bounded(data@, p as nat, 1);
            lemma_sums_bounded(data@, p as nat, 2);
        }
        let r = data[4 * p] as u128;
        let g = data[4 * p + 1] as u128;
        let b = data[4 * p + 2] as u128;
        proof {
            assert(r * r <= 65025 && g * g <= 65025 && b * b <= 65025) by (nonlinear_arith)
                requires
                    r <= 255,
                    g <= 255,
                    b <= 255,
            ;
        }
        s0 = s0 + r;
        s1 = s1 + g;
        s2 = s2 + b;
        q0 = q0 + r * r;
        q1 = q1 + g * g;
        q2 = q2 + b * b;
        p = p + 1;
    }
    if pixels == 0 {
        return 0;
    }
    proof {
        lemma_sums_bounded(data@, pixels as nat, 0);
        lemma_sums_bounded(data@, pixels as nat, 1);
        lemma_sums_bounded(data@, pixels as nat, 2);
    }
    let n = pixels as u128;
    let num = deviation(n, s0, q0) + deviation(n, s1, q1) + deviation(n, s2, q2);
    proof {
        assert(3 * n * n * 65025 <= 3 * 0xffff_ffff * 0xffff_ffff * 65025) by (nonlinear_arith)
            requires
                n <= 0xffff_ffff,
        ;
        assert(3 * n * n * 65025 > 0) by (nonlinear_arith)
            requires
                n >= 1,
        ;
    }
    let den = 3 * n * n * 65025;
    let q = num * 10000 / den;
    if q > 10000 {
        10000
    } else {
        q as u32
    }
}

/// Number of the first `n` pixels whose colour is `k`.
pub open spec fn color_count(s: Seq<u8>, n: nat, k: u32) -> nat
    decreases n,
{
    if n == 0 {
        0
    } else {
        color_count(s, (n - 1) as nat, k) + if color_key(s, n - 1) == k { 1nat } else { 0nat }
    }
}

fn pixel_key(data: &Vec<u8>, p: usize) -> (r: u32)
    requires
        4 * p + 3 < data@.len(),
    ensures
        r == color_key(data@, p as int),
{
    let _n = data.len();
    (data[4 * p] as u32) * 65536 + (data[4 * p + 1] as u32) * 256 + (data[4 * p + 2] as u32)
}

/// The tracked colours of an RGBA grid in order of first appearance, with how
/// many pixels have each. At most 65536 colours are tracked; a colour first
/// met after that is not.
pub fn color_histogram(rgba: &OptimizedImageBuffer) -> (r: (Vec<u32>, Vec<u64>))
    requires
        rgba@.wf(),
        rgba@.channels == 4,
    ensures
        r.0@.len() == r.1@.len(),
        r.0@.len() == seen_colors(rgba@.data, rgba@.data.len() / 4).len(),
        forall|i: int| 0 <= i < r.0@.len() ==> seen_colors(rgba@.data, rgba@.data.len() / 4).contains(#[trigger] r.0@[i]),
        forall|i: int, j: int| 0 <= i < j < r.0@.len() ==> r.0@[i] != r.0@[j],
        forall|i: int| 0 <= i < r.1@.len() ==> #[trigger] r.1@[i] == color_count(rgba@.data, (rgba@.data.len() / 4) as nat, r.0@[i]),
        forall|k: u32| seen_colors(rgba@.data, rgba@.data.len() / 4).contains(k) ==> #[trigger] r.0@.contains(k),
{
    let data = rgba.data();
    let pixels = data.len() / 4;
    let mut index: HashMap<u32, usize> = HashMap::new();
    let mut keys: Vec<u32> = Vec::new();
    let mut counts: Vec<u64> = Vec::new();
    let mut p: usize = 0;
    while p < pixels
        invariant
            data@ == rgba@.data,
            pixels == data@.len() / 4,
            data@.len() <= usize::MAX,
            p <= pixels,
            seen_colors(data@, p as nat).finite(),
            forall|k: u32| index@.contains_key(k) <==> seen_colors(data@, p as nat).contains(k),
            forall|i: int| 0 <= i < keys@.len() ==> index@.contains_key(#[trigger] keys@[i]) && index@[keys@[i]] == i,
            forall|k: u32| #[trigger] index@.contains_key(k) ==> index@[k] < keys@.len() && keys@[index@[k] as int] == k,
            keys@.len() == counts@.len(),
            keys@.len() == seen_colors(data@, p as nat).len(),
            forall|i: int| 0 <= i < counts@.len() ==> #[trigger] counts@[i] == color_count(data@, p as nat, keys@[i]),
            forall|i: int| 0 <= i < counts@.len() ==> #[trigger] counts@[i] <= p,
            seen_colors(data@, p as nat).len() < 65536 ==> forall|k: u32|
                !seen_colors(data@, p as nat).contains(k) ==> #[trigger] color_count(data@, p as nat, k) == 0,
        decreases pixels - p,
    {
        proof {
            lemma_seen_bounded(data@, p as nat);
        }
        let c = pixel_key(data, p);
        let ghost next = (p + 1) as nat;
        match index.get(&c) {
            Some(i) => {
                let i = *i;
                let v = counts[i];
                counts.set(i, v + 1);
            },
            None => {
                if keys.len() < COLOR_CAP {
                    index.insert(c, keys.len());
                    keys.push(c);
                    counts.push(1);
                    proof {
                        vstd::set::axiom_set_insert_len(seen_colors(data@, p as nat), c);
                    }
                }
            },
        }
        proof {
            assert forall|i: int| 0 <= i < counts@.len() implies #[trigger] counts@[i] == color_count(data@, next, keys@[i]) by {
                assert(color_count(data@, next, keys@[i]) == color_count(data@, p as nat, keys@[i]) + if c == keys@[i] { 1nat } else { 0nat });
            }
            assert forall|k: u32| index@.contains_key(k) <==> seen_colors(data@, next).contains(k) by {
            }
            if seen_colors(data@, next).len() < 65536 {
                assert forall|k: u32| !seen_colors(data@, next).contains(k) implies #[trigger] color_count(data@, next, k) == 0 by {
                    assert(color_count(data@, next, k) == color_count(data@, p as nat, k) + if c == k { 1nat } else { 0nat });
                }
            }
            lemma_seen_bounded(data@, next);
        }
        p = p + 1;
    }
    proof {
        assert forall|i: int, j: int| 0 <= i < j < keys@.len() implies keys@[i] != keys@[j] by {
            assert(index@[keys@[i]] == i && index@[keys@[j]] == j);
        }
        assert forall|k: u32| seen_colors(data@, pixels as nat).contains(k) implies #[trigger] keys@.contains(k) by {
            assert(index@.contains_key(k));
            assert(keys@[index@[k] as int] == k);
        }
    }
    (keys, counts)
}

/// Indices of the (at most) five largest counts, largest first; ties go to the
/// smaller index.
pub fn find_dominant_colors(counts: &Vec<u64>) -> (r: Vec<usize>)
    ensures
        r@.len() == (if counts@.len() < 5 { counts@.len() } else { 5 }),
        forall|j: int| 0 <= j < r@.len() ==> #[trigger] r@[j] < counts@.len(),
        forall|i: int, j: int| 0 <= i < j < r@.len() ==> r@[i] != r@[j],
        forall|j: int| 0 < j < r@.len() ==> counts@[r@[j - 1] as int] >= counts@[#[trigger] r@[j] as int],
        forall|i: int|
            0 <= i < counts@.len() && !r@.contains(i as usize) && r@.len() > 0 ==> #[trigger] counts@[i]
                <= counts@[r@.last() as int],
{
    let n = counts.len();
    let want: usize = if n < 5 { n } else { 5 };
    let mut chosen: Vec<bool> = vec![false; n];
    let mut r: Vec<usize> = Vec::new();
    proof {
        lemma_no_marks(chosen@, n as int);
    }
    while r.len() < want
        invariant
            n == counts@.len(),
            n == chosen@.len(),
            want == (if n < 5 { n } else { 5 }),
            r@.len() <= want,
            marks(chosen@, n as int) == r@.len(),
            forall|j: int| 0 <= j < r@.len() ==> #[trigger] r@[j] < n,
            forall|i: int| 0 <= i < n ==> #[trigger] chosen@[i] == r@.contains(i as usize),
            forall|i: int, j: int| 0 <= i < j < r@.len() ==> r@[i] != r@[j],
            forall|j: int| 0 < j < r@.len() ==> counts@[r@[j - 1] as int] >= counts@[#[trigger] r@[j] as int],
            forall|i: int|
                0 <= i < n && !r@.contains(i as usize) && r@.len() > 0 ==> #[trigger] counts@[i]
                    <= counts@[r@.last() as int],
        decreases want - r@.len(),
    {
        proof {
            lemma_unmarked_exists(chosen@, n as int);
        }
        let ghost free = choose|i: int| 0 <= i < n && !chosen@[i];
        let mut best: usize = n;
        let mut i: usize = 0;
        while i < n
            invariant
                n == counts@.len(),
                n == chosen@.len(),
                i <= n,
                0 <= free < n,
                !chosen@[free],
                best == n || (best < i && !chosen@[best as int]),
                best == n ==> forall|k: int| 0 <= k < i ==> chosen@[k],
                best < n ==> forall|k: int| 0 <= k < i && !chosen@[k] ==> #[trigger] counts@[k] <= counts@[best as int],
            decreases n - i,
        {
            if !chosen[i] && (best == n || counts[i] > counts[best]) {
                best = i;
            }
            i = i + 1;
        }
        assert(best < n);
        let ghost old_r = r@;
        proof {
            lemma_mark_one(chosen@, best as int, n as int);
        }
        chosen.set(best, true);
        r.push(best);
        proof {
            assert forall|k: int| 0 <= k < n implies #[trigger] chosen@[k] == r@.contains(k as usize) by {
                if k == best as int {
                    assert(r@[r@.len() - 1] == best);
                } else {
                    if old_r.contains(k as usize) {
                        let j = choose|j: int| 0 <= j < old_r.len() && old_r[j] == k as usize;
                        assert(r@[j] == k as usize);
                    }
                    if r@.contains(k as usize) {
                        let j = choose|j: int| 0 <= j < r@.len() && r@[j] == k as usize;
                        assert(j < old_r.len());
                        assert(old_r[j] == k as usize);
                    }
                }
            }
            assert forall|a: int, b: int| 0 <= a < b < r@.len() implies r@[a] != r@[b] by {
                if b == r@.len() - 1 {
                    assert(old_r.contains(r@[a]));
                }
            }
            assert forall|k: int| 0 <= k < n && !r@.contains(k as usize) && r@.len() > 0 implies #[trigger] counts@[k]
                <= counts@[r@.last() as int] by {
                if !old_r.contains(k as usize) {
                    assert(!chosen@[k] || k == best as int);
                }
                assert(old_r.len() == r@.len() - 1);
                if k != best as int {
                    assert(r@.contains(k as usize) ==> old_r.contains(k as usize) || k == best as int);
                    if old_r.contains(k as usize) {
                        let j = choose|j: int| 0 <= j < old_r.len() && old_r[j] == k as usize;
                        assert(r@[j] == k as usize);
                    }
                }
            }
            if old_r.len() > 0 {
                assert(!old_r.contains(best));
                assert(counts@[best as int] <= counts@[old_r.last() as int]);
            }
        }
    }
    r
}

/// Number of marks set among the first `k`.
pub open spec fn marks(s: Seq<bool>, k: int) -> int
    decreases k,
{
    if k <= 0 {
        0
    } else {
        marks(s, k - 1) + if s[k - 1] { 1int } else { 0int }
    }
}

proof fn lemma_unmarked_exists(s: Seq<bool>, k: int)
    requires
        0 <= k <= s.len(),
        marks(s, k) < k,
    ensures
        exists|i: int| 0 <= i < k && !s[i],
    decreases k,
{
    if k > 0 && s[k - 1] {
        lemma_unmarked_exists(s, k - 1);
    }
}

proof fn lemma_no_marks(s: Seq<bool>, k: int)
    requires
        0 <= k <= s.len(),
        forall|i: int| 0 <= i < k ==> !s[i],
    ensures
        marks(s, k) == 0,
    decreases k,
{
    if k > 0 {
        lemma_no_marks(s, k - 1);
    }
}

proof fn lemma_mark_one(s: Seq<bool>, b: int, k: int)
    requires
        0 <= b < s.len(),
        0 <= k <= s.len(),
        !s[b],
    ensures
        marks(s.update(b, true), k) == marks(s, k) + if b < k { 1int } else { 0int },
    decreases k,
{
    if k > 0 {
        lemma_mark_one(s, b, k - 1);
    }
}

/// Packs a colour as `0xRRGGBB`.
pub open spec fn pack(c: (u8, u8, u8)) -> u32 {
    ((c.0 as int) * 65536 + (c.1 as int) * 256 + (c.2 as int)) as u32
}

proof fn lemma_seen_small(s: Seq<u8>, n: nat)
    requires
        4 * n <= s.len(),
    ensures
        forall|k: u32| #[trigger] seen_colors(s, n).contains(k) ==> k < 16777216,
    decreases n,
{
    if n > 0 {
        lemma_seen_small(s, (n - 1) as nat);
        let p = n - 1;
        let v = (s[4 * p] as int) * 65536 + (s[4 * p + 1] as int) * 256 + (s[4 * p + 2] as int);
        assert(0 <= v < 16777216);
        assert(color_key(s, p) == v);
        let prev = seen_colors(s, (n - 1) as nat);
        assert forall|k: u32| #[trigger] seen_colors(s, n).contains(k) implies k < 16777216 by {
            if prev.len() < 65536 {
                assert(seen_colors(s, n) == prev.insert(color_key(s, p)));
                assert(prev.contains(k) || k == color_key(s, p));
            } else {
                assert(seen_colors(s, n) == prev);
            }
        }
    }
}

/// `r` lists up to five most frequent tracked colours of the RGBA samples
/// `s`, most frequent first: as many as five or all tracked colours, distinct,
/// with no unlisted tracked colour more frequent than the last listed one.
pub open spec fn is_dominant_of(r: Seq<(u8, u8, u8)>, s: Seq<u8>) -> bool {
    let n = (s.len() / 4) as nat;
    let seen = seen_colors(s, n);
    &&& r.len() == (if seen.len() < 5 { seen.len() } else { 5 })
    &&& forall|j: int| 0 <= j < r.len() ==> seen.contains(#[trigger] pack(r[j]))
    &&& forall|i: int, j: int| 0 <= i < j < r.len() ==> pack(r[i]) != pack(r[j])
    &&& forall|j: int|
        0 < j < r.len() ==> color_count(s, n, pack(r[j - 1])) >= color_count(s, n, #[trigger] pack(r[j]))
    &&& forall|k: u32|
        seen.contains(k) && r.len() > 0 && (forall|j: int| 0 <= j < r.len() ==> pack(#[trigger] r[j]) != k)
            ==> #[trigger] color_count(s, n, k) <= color_count(s, n, pack(r.last()))
}

/// Up to five most frequent tracked colours, most frequent first; ties go to
/// the colour met first.
pub fn dominant_colors(rgba: &OptimizedImageBuffer) -> (r: Vec<(u8, u8, u8)>)
    requires
        rgba@.wf(),
        rgba@.channels == 4,
    ensures
        is_dominant_of(r@, rgba@.data),
{
    let (keys, counts) = color_histogram(rgba);
    let top = find_dominant_colors(&counts);
    let ghost s = rgba@.data;
    let ghost n = (s.len() / 4) as nat;
    proof {
        lemma_seen_small(s, n);
    }
    let mut r: Vec<(u8, u8, u8)> = Vec::new();
    let mut j: usize = 0;
    while j < top.len()
        invariant
            j <= top@.len(),
            r@.len() == j,
            keys@.len() == counts@.len(),
            forall|t: int| 0 <= t < top@.len() ==> #[trigger] top@[t] < counts@.len(),
            forall|i: int| 0 <= i < keys@.len() ==> seen_colors(s, n).contains(#[trigger] keys@[i]),
            forall|k: u32| #[trigger] seen_colors(s, n).contains(k) ==> k < 16777216,
            forall|t: int| 0 <= t < j ==> #[trigger] pack(r@[t]) == keys@[top@[t] as int],
        decreases top@.len() - j,
    {
        let k = keys[top[j]];
        let c = ((k / 65536) as u8, ((k / 256) % 256) as u8, (k % 256) as u8);
        assert(pack(c) == k) by {
            assert(k < 16777216);
        }
        r.push(c);
        j = j + 1;
    }
    proof {
        let seen = seen_colors(s, n);
        assert forall|i: int, j: int| 0 <= i < j < r@.len() implies pack(r@[i]) != pack(r@[j]) by {
            assert(pack(r@[i]) == keys@[top@[i] as int] && pack(r@[j]) == keys@[top@[j] as int]);
        }
        assert forall|j: int|
            0 < j < r@.len() implies color_count(s, n, pack(r@[j - 1])) >= color_count(s, n, #[trigger] pack(r@[j])) by {
            assert(pack(r@[j - 1]) == keys@[top@[j - 1] as int]);
            assert(counts@[top@[j - 1] as int] >= counts@[top@[j] as int]);
        }
        assert forall|k: u32|
            seen.contains(k) && r@.len() > 0 && (forall|j: int| 0 <= j < r@.len() ==> pack(#[trigger] r@[j]) != k)
                implies #[trigger] color_count(s, n, k) <= color_count(s, n, pack(r@.last())) by {
            assert(keys@.contains(k));
            let i = choose|i: int| 0 <= i < keys@.len() && keys@[i] == k;
            if top@.contains(i as usize) {
                let t = choose|t: int| 0 <= t < top@.len() && top@[t] == i as usize;
                assert(pack(r@[t]) == k);
            }
            assert(counts@[i] <= counts@[top@.last() as int]);
            assert(pack(r@[r@.len() - 1]) == keys@[top@[top@.len() - 1] as int]);
        }
    }
    r
}

/// Colours of pixels `a..b`.
pub open spec fn range_colors(s: Seq<u8>, a: nat, b: nat) -> Set<u32>
    decreases b,
{
    if b <= a {
        Set::empty()
    } else {
        range_colors(s, a, (b - 1) as nat).insert(color_key(s, b - 1))
    }
}

/// `n` capped at 65536.
pub open spec fn capped(n: nat) -> nat {
    if n < 65536 {
        n
    } else {
        65536
    }
}

proof fn lemma_range_finite(s: Seq<u8>, a: nat, b: nat)
    ensures
        range_colors(s, a, b).finite(),
    decreases b,
{
    if b > a {
        lemma_range_finite(s, a, (b - 1) as nat);
    }
}

proof fn lemma_range_split(s: Seq<u8>, a: nat, m: nat, b: nat)
    requires
        a <= m <= b,
    ensures
        range_colors(s, a, b) == range_colors(s, a, m).union(range_colors(s, m, b)),
    decreases b,
{
    if b > m {
        lemma_range_split(s, a, m, (b - 1) as nat);
        assert(range_colors(s, a, b) =~= range_colors(s, a, m).union(range_colors(s, m, b)));
    } else {
        assert(range_colors(s, a, b) =~= range_colors(s, a, m).union(range_colors(s, m, b)));
    }
}

/// The capped sequential count is the number of distinct colours, capped.
pub proof fn lemma_seen_is_capped(s: Seq<u8>, n: nat)
    ensures
        seen_colors(s, n).subset_of(range_colors(s, 0, n)),
        seen_colors(s, n).len() < 65536 ==> seen_colors(s, n) == range_colors(s, 0, n),
        seen_colors(s, n).len() == capped(range_colors(s, 0, n).len()),
    decreases n,
{
    lemma_seen_bounded(s, n);
    lemma_range_finite(s, 0, n);
    if n > 0 {
        lemma_seen_is_capped(s, (n - 1) as nat);
        lemma_seen_bounded(s, (n - 1) as nat);
        let prev = seen_colors(s, (n - 1) as nat);
        if seen_colors(s, n).len() < 65536 {
            if prev.len() >= 65536 {
                assert(seen_colors(s, n) == prev);
            }
            assert(seen_colors(s, n) =~= range_colors(s, 0, n));
        }
    }
    vstd::set_lib::lemma_len_subset(seen_colors(s, n), range_colors(s, 0, n));
}

/// The distinct colours of pixels `a..b`, in order of first appearance,
/// collected until 65536 are known: a bounded accumulator for one shard.
pub fn shard_colors(rgba: &OptimizedImageBuffer, a: usize, b: usize) -> (r: Vec<u32>)
    requires
        rgba@.wf(),
        rgba@.channels == 4,
        a <= b <= rgba@.data.len() / 4,
    ensures
        r@.no_duplicates(),
        r@.len() <= 65536,
        r@.to_set().subset_of(range_colors(rgba@.data, a as nat, b as nat)),
        r@.len() < 65536 ==> r@.to_set() == range_colors(rgba@.data, a as nat, b as nat),
{
    let data = rgba.data();
    let _n = data.len();
    let mut set: HashSet<u32> = HashSet::new();
    let mut out: Vec<u32> = Vec::new();
    let mut p: usize = a;
    while p < b
        invariant
            data@ == rgba@.data,
            b <= data@.len() / 4,
            data@.len() <= usize::MAX,
            a <= p <= b,
            out@.no_duplicates(),
            set@ == out@.to_set(),
            out@.len() <= 65536,
            out@.to_set() == range_colors(data@, a as nat, p as nat),
        ensures
            p == b || out@.len() >= 65536,
        decreases b - p,
    {
        if out.len() >= COLOR_CAP {
            break;
        }
        let key = pixel_key(data, p);
        proof {
            out@.lemma_push_to_set_commute(key);
        }
        if set.insert(key) {
            assert(!out@.contains(key));
            out.push(key);
        }
        assert(out@.to_set() =~= range_colors(data@, a as nat, (p + 1) as nat));
        p = p + 1;
    }
    proof {
        if p < b {
            lemma_range_split(data@, a as nat, p as nat, b as nat);
        }
    }
    out
}

/// Union of the element sets of the first `k` shards.
pub open spec fn union_of(locals: Seq<Vec<u32>>, k: int) -> Set<u32>
    decreases k,
{
    if k <= 0 {
        Set::empty()
    } else {
        union_of(locals, k - 1).union(locals[k - 1]@.to_set())
    }
}

proof fn lemma_union_finite(locals: Seq<Vec<u32>>, k: int)
    ensures
        union_of(locals, k).finite(),
    decreases k,
{
    if k > 0 {
        lemma_union_finite(locals, k - 1);
        vstd::seq_lib::seq_to_set_is_finite(locals[k - 1]@);
    }
}

proof fn lemma_union_contains(locals: Seq<Vec<u32>>, k: int, j: int)
    requires
        0 <= j < k,
    ensures
        locals[j]@.to_set().subset_of(union_of(locals, k)),
    decreases k,
{
    if j < k - 1 {
        lemma_union_contains(locals, k - 1, j);
    }
}

/// Merges shard accumulators in order into one set of at most 65536
/// colours, stopping once it is full; returns its size.
pub fn merge_color_sets(locals: &Vec<Vec<u32>>) -> (r: u32)
    ensures
        r == capped(union_of(locals@, locals@.len() as int).len()),
{
    let mut merged: HashSet<u32> = HashSet::new();
    let mut k: usize = 0;
    proof {
        lemma_union_finite(locals@, 0);
    }
    while k < locals.len()
        invariant
            k <= locals@.len(),
            merged@.finite(),
            merged@.subset_of(union_of(locals@, k as int)),
            merged@.len() <= 65536,
            merged@.len() < 65536 ==> merged@ == union_of(locals@, k as int),
        ensures
            k == locals@.len() || merged@.len() >= 65536,
        decreases locals@.len() - k,
    {
        if merged.len() >= COLOR_CAP {
            break;
        }
        let local = &locals[k];
        let ghost before = merged@;
        let mut i: usize = 0;
        while i < local.len()
            invariant
                k < locals@.len(),
                local@ == locals@[k as int]@,
                i <= local@.len(),
                before == union_of(locals@, k as int),
                merged@.finite(),
                merged@.subset_of(before.union(local@.to_set())),
                merged@.len() <= 65536,
                merged@.len() < 65536 ==> merged@ == before.union(local@.subrange(0, i as int).to_set()),
            ensures
                i == local@.len() || merged@.len() >= 65536,
            decreases local@.len() - i,
        {
            if merged.len() >= COLOR_CAP {
                break;
            }
            let ghost sub = local@.subrange(0, i as int);
            proof {
                assert(local@.subrange(0, i + 1) == sub.push(local@[i as int]));
                sub.lemma_push_to_set_commute(local@[i as int]);
            }
            merged.insert(local[i]);
            proof {
                assert(local@.to_set().contains(local@[i as int]));
                assert(merged@ =~= before.union(local@.subrange(0, i + 1).to_set()));
            }
            i = i + 1;
        }
        proof {
            if merged@.len() < 65536 {
                assert(local@.subrange(0, local@.len() as int) == local@);
            }
            assert(union_of(locals@, k + 1) == before.union(local@.to_set()));
        }
        k = k + 1;
    }
    proof {
        lemma_union_finite(locals@, locals@.len() as int);
        if k < locals@.len() {
            assert(union_of(locals@, k as int).subset_of(union_of(locals@, locals@.len() as int))) by {
                assert forall|j: int| 0 <= j < k implies locals@[j]@.to_set().subset_of(
                    union_of(locals@, locals@.len() as int),
                ) by {
                    lemma_union_contains(locals@, locals@.len() as int, j);
                }
                lemma_union_below(locals@, k as int, locals@.len() as int);
            }
        }
        vstd::set_lib::lemma_len_subset(merged@, union_of(locals@, locals@.len() as int));
    }
    merged.len() as u32
}

proof fn lemma_union_below(locals: Seq<Vec<u32>>, k: int, m: int)
    requires
        0 <= k <= m,
    ensures
        union_of(locals, k).subset_of(union_of(locals, m)),
    decreases m,
{
    if m > k {
        lemma_union_below(locals, k, m - 1);
    }
}

/// Number of distinct colours of an RGBA grid, capped at 65536, computed shard
/// by shard (`shard_pixels` pixels each) with bounded accumulators merged in
/// order. It equals the sequential count for every shard size.
pub fn estimate_color_count_sharded(rgba: &OptimizedImageBuffer, shard_pixels: usize) -> (r: u32)
    requires
        rgba@.wf(),
        rgba@.channels == 4,
        shard_pixels >= 1,
    ensures
        r == seen_colors(rgba@.data, rgba@.data.len() / 4).len(),
{
    let pixels = rgba.data().len() / 4;
    let ghost s = rgba@.data;
    let ranges = ParallelProcessor::chunk_ranges(pixels, shard_pixels);
    let mut locals: Vec<Vec<u32>> = Vec::new();
    let mut k: usize = 0;
    let ghost mut full = false;
    let ghost mut end: nat = 0;
    proof {
        lemma_range_finite(s, 0, 0);
        assert(union_of(locals@, 0) =~= range_colors(s, 0, 0));
    }
    while k < ranges.len()
        invariant
            rgba@.wf(),
            rgba@.channels == 4,
            s == rgba@.data,
            pixels == s.len() / 4,
            k <= ranges@.len(),
            locals@.len() == k,
            ranges@.len() > 0 ==> ranges@[0].0 == 0 && ranges@.last().1 == pixels,
            ranges@.len() == 0 <==> pixels == 0,
            forall|j: int| 0 <= j < ranges@.len() ==> #[trigger] ranges@[j].0 < ranges@[j].1,
            forall|j: int| 0 < j < ranges@.len() ==> #[trigger] ranges@[j].0 == ranges@[j - 1].1,
            k == 0 ==> end == 0,
            k > 0 ==> end == ranges@[k - 1].1,
            end <= pixels,
            union_of(locals@, k as int).finite(),
            union_of(locals@, k as int).subset_of(range_colors(s, 0, end)),
            full ==> union_of(locals@, k as int).len() >= 65536,
            !full ==> union_of(locals@, k as int) == range_colors(s, 0, end),
        decreases ranges@.len() - k,
    {
        let (a, b) = ranges[k];
        proof {
            if k > 0 {
                assert(ranges@[k as int].0 == ranges@[k - 1].1);
            }
            lemma_ranges_within(ranges@, k as int, pixels as int);
        }
        let local = shard_colors(rgba, a, b);
        let ghost prev = union_of(locals@, k as int);
        let ghost before = locals@;
        locals.push(local);
        proof {
            assert(locals@[k as int] == local);
            lemma_union_prefix_eq(locals@, before, k as int);
            let u = union_of(locals@, k + 1);
            assert(u == prev.union(local@.to_set()));
            vstd::seq_lib::seq_to_set_is_finite(local@);
            lemma_range_split(s, 0, a as nat, b as nat);
            lemma_range_finite(s, 0, b as nat);
            if local@.len() >= 65536 {
                local@.unique_seq_to_set();
                vstd::set_lib::lemma_len_subset(local@.to_set(), u);
                full = true;
            } else if full {
                vstd::set_lib::lemma_len_subset(prev, u);
            }
        }
        proof {
            end = b as nat;
        }
        k = k + 1;
    }
    proof {
        if pixels > 0 {
            assert(end == pixels);
        }
        lemma_seen_is_capped(s, pixels as nat);
        lemma_range_finite(s, 0, pixels as nat);
        if full {
            vstd::set_lib::lemma_len_subset(union_of(locals@, k as int), range_colors(s, 0, pixels as nat));
        }
    }
    merge_color_sets(&locals)
}

proof fn lemma_union_prefix_eq(a: Seq<Vec<u32>>, b: Seq<Vec<u32>>, k: int)
    requires
        0 <= k <= a.len(),
        k <= b.len(),
        forall|j: int| 0 <= j < k ==> a[j] == b[j],
    ensures
        union_of(a, k) == union_of(b, k),
    decreases k,
{
    if k > 0 {
        lemma_union_prefix_eq(a, b, k - 1);
    }
}

} // verus!
