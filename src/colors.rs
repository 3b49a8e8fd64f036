//! Dominant colours of an artwork, and the two accent colours derived from them.
//!
//! Clustering itself happens in a perceptual colour space with floating-point centroids; this
//! module takes its outcome as plain values: the centroids converted back to RGB, and for
//! each pixel the index of the centroid it was assigned to.
use vstd::prelude::*;

use crate::pixels::Color;

verus! {

/// A centroid of the clustering, with the number of pixels assigned to it. Its share of the
/// artwork is `pixels` divided by the number of pixels clustered.
#[derive(Clone, Copy, Debug)]
pub struct Cluster {
    /// Index of the centroid in the clustering's output.
    pub centroid: usize,
    pub color: Color,
    pub pixels: usize,
}

/// The smaller of `a` and `b`.
pub open spec fn min_len(a: int, b: int) -> int {
    if a < b {
        a
    } else {
        b
    }
}

/// Number of entries of `indices` equal to `i`.
pub open spec fn count_of(indices: Seq<u8>, i: int) -> nat
    decreases indices.len(),
{
    if indices.len() == 0 {
        0
    } else {
        count_of(indices.drop_last(), i) + if indices.last() == i {
            1nat
        } else {
            0nat
        }
    }
}

/// Sum of the entries of `s`.
pub open spec fn seq_sum(s: Seq<usize>) -> int
    decreases s.len(),
{
    if s.len() == 0 {
        0
    } else {
        seq_sum(s.drop_last()) + s.last()
    }
}

/// Number of pixels that the clusters of `r` cover together.
pub open spec fn total_pixels(r: Seq<Cluster>) -> int
    decreases r.len(),
{
    if r.len() == 0 {
        0
    } else {
        total_pixels(r.drop_last()) + r.last().pixels
    }
}

/// `r` lists every centroid that has pixels assigned, once, with its colour and pixel count,
/// most pixels first and, among equal counts, lower centroid index first.
pub open spec fn is_ranking(centroids: Seq<Color>, indices: Seq<u8>, r: Seq<Cluster>) -> bool {
    &&& forall|k: int|
        0 <= k < r.len() ==> {
            &&& #[trigger] r[k].centroid < centroids.len()
            &&& r[k].color == centroids[r[k].centroid as int]
            &&& r[k].pixels == count_of(indices, r[k].centroid as int)
            &&& r[k].pixels > 0
        }
    &&& forall|k1: int, k2: int|
        0 <= k1 < k2 < r.len() ==> #[trigger] r[k1].pixels > #[trigger] r[k2].pixels || (
        r[k1].pixels == r[k2].pixels && r[k1].centroid < r[k2].centroid)
    &&& forall|i: int|
        0 <= i < centroids.len() && #[trigger] count_of(indices, i) > 0 ==> exists|k: int|
            0 <= k < r.len() && r[k].centroid == i
}

proof fn lemma_sum_update(s: Seq<usize>, i: int, v: usize)
    requires
        0 <= i < s.len(),
    ensures
        seq_sum(s.update(i, v)) == seq_sum(s) - s[i] + v,
    decreases s.len(),
{
    if i == s.len() - 1 {
        assert(s.update(i, v).drop_last() =~= s.drop_last());
    } else {
        lemma_sum_update(s.drop_last(), i, v);
        assert(s.update(i, v).drop_last() =~= s.drop_last().update(i, v));
    }
}

proof fn lemma_sum_zero(s: Seq<usize>)
    requires
        forall|i: int| 0 <= i < s.len() ==> s[i] == 0,
    ensures
        seq_sum(s) == 0,
    decreases s.len(),
{
    if s.len() > 0 {
        lemma_sum_zero(s.drop_last());
    }
}

proof fn lemma_sum_nonneg(s: Seq<usize>)
    ensures
        seq_sum(s) >= 0,
        forall|i: int| 0 <= i < s.len() ==> s[i] <= seq_sum(s),
    decreases s.len(),
{
    if s.len() > 0 {
        lemma_sum_nonneg(s.drop_last());
        assert forall|i: int| 0 <= i < s.len() implies s[i] <= seq_sum(s) by {
            if i < s.len() - 1 {
                assert(s[i] == s.drop_last()[i]);
            }
        }
    }
}

/// Ranks the clusters of a clustering by the number of pixels assigned to each: every
/// centroid with pixels appears once, most represented first. The pixel counts add up to the
/// number of pixels clustered, so the shares sum to one, and they never increase along the
/// ranking.
pub fn rank_clusters(centroids: &Vec<Color>, indices: &Vec<u8>) -> (r: Vec<Cluster>)
    requires
        forall|j: int| 0 <= j < indices@.len() ==> (#[trigger] indices@[j] as int) < centroids@.len(),
    ensures
        is_ranking(centroids@, indices@, r@),
        total_pixels(r@) == indices@.len(),
{
    let nc = centroids.len();
    let n = indices.len();
    let mut counts: Vec<usize> = Vec::new();
    while counts.len() < nc
        invariant
            counts@.len() <= nc,
            forall|i: int| 0 <= i < counts@.len() ==> counts@[i] == 0,
        decreases nc - counts@.len(),
    {
        counts.push(0);
    }
    proof {
        lemma_sum_zero(counts@);
    }
    let mut j: usize = 0;
    while j < n
        invariant
            n == indices@.len(),
            nc == centroids@.len(),
            j <= n,
            counts@.len() == nc,
            forall|j2: int| 0 <= j2 < indices@.len() ==> (#[trigger] indices@[j2] as int) < centroids@.len(),
            forall|i: int| 0 <= i < nc ==> #[trigger] counts@[i] == count_of(indices@.take(j as int), i),
            seq_sum(counts@) == j,
        decreases n - j,
    {
        let v = indices[j] as usize;
        proof {
            lemma_sum_nonneg(counts@);
            assert(indices@.take(j + 1).drop_last() =~= indices@.take(j as int));
            lemma_sum_update(counts@, v as int, (counts@[v as int] + 1) as usize);
        }
        let c = counts[v];
        counts.set(v, c + 1);
        j = j + 1;
    }
    assert(indices@.take(n as int) =~= indices@);
    let ghost full = counts@;
    let mut r: Vec<Cluster> = Vec::new();
    loop
        invariant
            nc == centroids@.len(),
            counts@.len() == nc,
            full.len() == nc,
            forall|i: int| 0 <= i < nc ==> #[trigger] full[i] == count_of(indices@, i),
            forall|i: int| 0 <= i < nc ==> #[trigger] counts@[i] == full[i] || counts@[i] == 0,
            forall|i: int|
                0 <= i < nc && #[trigger] counts@[i] == 0 && full[i] > 0 ==> exists|k: int|
                    0 <= k < r@.len() && r@[k].centroid == i,
            forall|k: int|
                0 <= k < r@.len() ==> {
                    &&& #[trigger] r@[k].centroid < nc
                    &&& r@[k].color == centroids@[r@[k].centroid as int]
                    &&& r@[k].pixels == count_of(indices@, r@[k].centroid as int)
                    &&& r@[k].pixels > 0
                    &&& counts@[r@[k].centroid as int] == 0
                },
            forall|k1: int, k2: int|
                0 <= k1 < k2 < r@.len() ==> #[trigger] r@[k1].pixels > #[trigger] r@[k2].pixels || (
                r@[k1].pixels == r@[k2].pixels && r@[k1].centroid < r@[k2].centroid),
            forall|k: int, i: int|
                0 <= k < r@.len() && 0 <= i < nc && #[trigger] counts@[i] > 0 ==> #[trigger] r@[k].pixels
                    > counts@[i] || (r@[k].pixels == counts@[i] && r@[k].centroid < i),
            total_pixels(r@) + seq_sum(counts@) == n,
        ensures
            forall|i: int| 0 <= i < nc ==> #[trigger] counts@[i] == 0,
        decreases seq_sum(counts@),
    {
        let mut best: usize = 0;
        let mut best_count: usize = 0;
        let mut i: usize = 0;
        while i < nc
            invariant
                nc == counts@.len(),
                i <= nc,
                best <= i,
                forall|i2: int| 0 <= i2 < i ==> #[trigger] counts@[i2] <= best_count,
                best_count == 0 || (best < i && counts@[best as int] == best_count),
                forall|i2: int| 0 <= i2 < best ==> #[trigger] counts@[i2] < best_count,
            decreases nc - i,
        {
            if counts[i] > best_count {
                best = i;
                best_count = counts[i];
            }
            i = i + 1;
        }
        if best_count == 0 {
            break;
        }
        proof {
            lemma_sum_nonneg(counts@);
            lemma_sum_update(counts@, best as int, 0);
        }
        let ghost r0 = r@;
        let ghost counts0 = counts@;
        r.push(Cluster { centroid: best, color: centroids[best], pixels: best_count });
        counts.set(best, 0);
        proof {
            assert(r@.drop_last() =~= r0);
            assert forall|i2: int|
                0 <= i2 < nc && #[trigger] counts@[i2] == 0 && full[i2] > 0 implies exists|k: int|
                0 <= k < r@.len() && r@[k].centroid == i2 by {
                if i2 == best {
                    assert(r@[r0.len() as int].centroid == i2);
                } else {
                    assert(counts0[i2] == 0);
                    let k = choose|k: int| 0 <= k < r0.len() && r0[k].centroid == i2;
                    assert(r@[k].centroid == i2);
                }
            }
        }
    }
    proof {
        lemma_sum_zero(counts@);
        assert forall|i: int|
            0 <= i < centroids@.len() && #[trigger] count_of(indices@, i) > 0 implies exists|k: int|
            0 <= k < r@.len() && r@[k].centroid == i by {
            assert(counts@[i] == 0 && full[i] > 0);
        }
    }
    r
}

/// The colours of the clusters of a clustering, most represented first: the colours of
/// `rank_clusters`'s ranking, in its order.
pub fn dominant_colors(centroids: &Vec<Color>, indices: &Vec<u8>) -> (r: Vec<Color>)
    requires
        forall|j: int| 0 <= j < indices@.len() ==> (#[trigger] indices@[j] as int) < centroids@.len(),
    ensures
        exists|ranked: Seq<Cluster>|
            {
                &&& is_ranking(centroids@, indices@, ranked)
                &&& total_pixels(ranked) == indices@.len()
                &&& r@ == ranked.map_values(|c: Cluster| c.color)
            },
{
    let ranked = rank_clusters(centroids, indices);
    let mut r: Vec<Color> = Vec::new();
    let mut k: usize = 0;
    while k < ranked.len()
        invariant
            k <= ranked@.len(),
            r@ == ranked@.take(k as int).map_values(|c: Cluster| c.color),
        decreases ranked@.len() - k,
    {
        r.push(ranked[k].color);
        k = k + 1;
        assert(r@ =~= ranked@.take(k as int).map_values(|c: Cluster| c.color));
    }
    assert(ranked@.take(k as int) =~= ranked@);
    r
}

/// Largest channel of `c`.
pub open spec fn max_channel(c: Color) -> int {
    if c[0] >= c[1] && c[0] >= c[2] {
        c[0] as int
    } else if c[1] >= c[2] {
        c[1] as int
    } else {
        c[2] as int
    }
}

/// Smallest channel of `c`.
pub open spec fn min_channel(c: Color) -> int {
    if c[0] <= c[1] && c[0] <= c[2] {
        c[0] as int
    } else if c[1] <= c[2] {
        c[1] as int
    } else {
        c[2] as int
    }
}

/// Numerator of the HSL saturation of `c`: `(max - min) / (1 - |2L - 1|)` with the channels
/// and the lightness `L = (max + min) / 2` taken on the 0..1 scale, times 255 above and below.
pub open spec fn sat_num(c: Color) -> int {
    max_channel(c) - min_channel(c)
}

/// Denominator of the HSL saturation of `c`. Where `1 - |2L - 1|` is zero (black or white)
/// the numerator is zero too and the saturation is taken as zero: the denominator is then 1.
pub open spec fn sat_den(c: Color) -> int {
    let s = max_channel(c) + min_channel(c) - 255;
    let d = if s >= 0 {
        255 - s
    } else {
        255 + s
    };
    if d == 0 {
        1
    } else {
        d
    }
}

/// `a` is strictly more saturated than `b`.
pub open spec fn more_saturated(a: Color, b: Color) -> bool {
    sat_num(a) * sat_den(b) > sat_num(b) * sat_den(a)
}

/// The redmean colour distance between `a` and `b`, times 512 so that it is an integer: the
/// squared red difference weighted by `2 + mean_red / 256`, green by 4, and blue by
/// `2 + (255 - mean_red) / 256`.
pub open spec fn redmean(a: Color, b: Color) -> int {
    let dr = a[0] - b[0];
    let dg = a[1] - b[1];
    let db = a[2] - b[2];
    (1024 + a[0] + b[0]) * dr * dr + 2048 * dg * dg + (1534 - a[0] - b[0]) * db * db
}

/// The saturation of `color`, as the fraction `r.0 / r.1`.
pub fn saturation(color: Color) -> (r: (u32, u32))
    ensures
        r.0 == sat_num(color),
        r.1 == sat_den(color),
        0 <= r.0 <= 255,
        0 < r.1 <= 255,
{
    let (a, b, c) = (color[0], color[1], color[2]);
    let hi = if a >= b && a >= c {
        a
    } else if b >= c {
        b
    } else {
        c
    };
    let lo = if a <= b && a <= c {
        a
    } else if b <= c {
        b
    } else {
        c
    };
    let sum = hi as u32 + lo as u32;
    let d = if sum >= 255 {
        255 - (sum - 255)
    } else {
        255 - (255 - sum)
    };
    (
        (hi - lo) as u32,
        if d == 0 {
            1
        } else {
            d
        },
    )
}

/// The redmean distance between `a` and `b`, scaled by 512.
pub fn color_difference(a: Color, b: Color) -> (r: u32)
    ensures
        r == redmean(a, b),
{
    let dr: i64 = a[0] as i64 - b[0] as i64;
    let dg: i64 = a[1] as i64 - b[1] as i64;
    let db: i64 = a[2] as i64 - b[2] as i64;
    let wr: i64 = 1024 + a[0] as i64 + b[0] as i64;
    let wb: i64 = 1534 - a[0] as i64 - b[0] as i64;
    assert(0 <= dr * dr <= 65025 && 0 <= dg * dg <= 65025 && 0 <= db * db <= 65025)
        by (nonlinear_arith)
        requires -255 <= dr <= 255, -255 <= dg <= 255, -255 <= db <= 255;
    assert(0 <= wr * (dr * dr) <= 1534 * 65025 && 0 <= wb * (db * db) <= 1534 * 65025)
        by (nonlinear_arith)
        requires 1024 <= wr <= 1534, 1024 <= wb <= 1534, 0 <= dr * dr <= 65025, 0 <= db * db <= 65025;
    assert(wr * dr * dr == wr * (dr * dr) && wb * db * db == wb * (db * db)) by (nonlinear_arith);
    assert(2048 * dg * dg == 2048 * (dg * dg)) by (nonlinear_arith);
    let v: i64 = wr * (dr * dr) + 2048 * (dg * dg) + wb * (db * db);
    assert(v == redmean(a, b));
    v as u32
}

/// `p` and `s` index the accent colours among `cands`: `p` the most saturated (the first of
/// equals), and `s` the other candidate farthest from it by redmean distance (the first of
/// equals), or `p` itself when there is no other candidate.
pub open spec fn is_accent_pair(cands: Seq<Color>, p: int, s: int) -> bool {
    &&& 0 <= p < cands.len()
    &&& 0 <= s < cands.len()
    &&& forall|j: int| 0 <= j < cands.len() ==> !more_saturated(#[trigger] cands[j], cands[p])
    &&& forall|j: int| 0 <= j < p ==> more_saturated(cands[p], #[trigger] cands[j])
    &&& (cands.len() == 1 ==> s == p)
    &&& (cands.len() > 1 ==> {
        &&& s != p
        &&& forall|j: int|
            0 <= j < cands.len() && j != p ==> redmean(cands[p], #[trigger] cands[j]) <= redmean(
                cands[p],
                cands[s],
            )
        &&& forall|j: int|
            0 <= j < s && j != p ==> redmean(cands[p], #[trigger] cands[j]) < redmean(
                cands[p],
                cands[s],
            )
    })
}

/// How many of the dominant colours are candidates for the accents.
pub const ACCENT_CANDIDATES: usize = 7;

/// The two accent colours that a gradient background is drawn between, chosen among the
/// first `ACCENT_CANDIDATES` dominant colours (all of them, if there are fewer): the most
/// saturated, then the candidate most distant from it. `None` when there is no colour.
pub fn gradient_colors(dominant: &Vec<Color>) -> (r: Option<[Color; 2]>)
    ensures
        dominant@.len() == 0 <==> r.is_none(),
        r.is_some() ==> exists|p: int, s: int|
            {
                &&& is_accent_pair(
                    dominant@.take(min_len(dominant@.len() as int, ACCENT_CANDIDATES as int)),
                    p,
                    s,
                )
                &&& r.unwrap()[0] == dominant@[p]
                &&& r.unwrap()[1] == dominant@[s]
            },
{
    let m: usize = if dominant.len() < ACCENT_CANDIDATES {
        dominant.len()
    } else {
        ACCENT_CANDIDATES
    };
    if m == 0 {
        return None;
    }
    let ghost cands = dominant@.take(m as int);
    let mut p: usize = 0;
    let mut best = saturation(dominant[0]);
    let mut i: usize = 1;
    while i < m
        invariant
            m <= dominant@.len(),
            cands == dominant@.take(m as int),
            1 <= i <= m,
            p < i,
            best.0 == sat_num(dominant@[p as int]),
            best.1 == sat_den(dominant@[p as int]),
            best.0 <= 255,
            best.1 <= 255,
            forall|j: int| 0 <= j < i ==> !more_saturated(#[trigger] cands[j], cands[p as int]),
            forall|j: int| 0 <= j < p ==> more_saturated(cands[p as int], #[trigger] cands[j]),
        decreases m - i,
    {
        let cur = saturation(dominant[i]);
        let (cn, cd, bn, bd) = (cur.0 as u64, cur.1 as u64, best.0 as u64, best.1 as u64);
        assert(cn * bd <= 255 * 255 && bn * cd <= 255 * 255) by (nonlinear_arith)
            requires cn <= 255, cd <= 255, bn <= 255, bd <= 255;
        if cn * bd > bn * cd {
            proof {
                let ci = cands[i as int];
                let cp = cands[p as int];
                assert forall|j: int| 0 <= j < i implies more_saturated(ci, #[trigger] cands[j]) by {
                    let cj = cands[j];
                    assert(!more_saturated(cj, cp));
                    assert(sat_num(ci) * sat_den(cj) > sat_num(cj) * sat_den(ci)) by (nonlinear_arith)
                        requires
                            sat_num(ci) * sat_den(cp) > sat_num(cp) * sat_den(ci),
                            sat_num(cj) * sat_den(cp) <= sat_num(cp) * sat_den(cj),
                            sat_den(cp) > 0, sat_den(ci) > 0, sat_den(cj) > 0,
                            sat_num(cp) >= 0, sat_num(ci) >= 0, sat_num(cj) >= 0;
                }
            }
            p = i;
            best = cur;
        }
        i = i + 1;
    }
    let primary = dominant[p];
    if m == 1 {
        proof {
            assert(is_accent_pair(cands, p as int, p as int));
            assert(cands == dominant@.take(min_len(dominant@.len() as int, ACCENT_CANDIDATES as int)));
        }
        return Some([primary, primary]);
    }
    let mut s: usize = if p == 0 {
        1
    } else {
        0
    };
    let mut far = color_difference(primary, dominant[s]);
    let mut i: usize = 0;
    while i < m
        invariant
            m <= dominant@.len(),
            m > 1,
            cands == dominant@.take(m as int),
            p < m,
            primary == cands[p as int],
            s < m,
            s != p,
            i <= m,
            far == redmean(primary, cands[s as int]),
            forall|j: int|
                0 <= j < i && j != p ==> redmean(primary, #[trigger] cands[j]) <= far,
            forall|j: int| 0 <= j < s && j != p ==> redmean(primary, #[trigger] cands[j]) < far,
        decreases m - i,
    {
        if i != p {
            let d = color_difference(primary, dominant[i]);
            if d > far {
                s = i;
                far = d;
            }
        }
        i = i + 1;
    }
    proof {
        assert(is_accent_pair(cands, p as int, s as int));
        assert(cands == dominant@.take(min_len(dominant@.len() as int, ACCENT_CANDIDATES as int)));
    }
    Some([primary, dominant[s]])
}

/// Where the candidates hold two different colours, the accent colours differ.
pub proof fn accent_colors_differ(cands: Seq<Color>, p: int, s: int, i: int, j: int)
    requires
        is_accent_pair(cands, p, s),
        0 <= i < cands.len(),
        0 <= j < cands.len(),
        cands[i]@ != cands[j]@,
    ensures
        cands[p]@ != cands[s]@,
{
    let k = if cands[i]@ != cands[p]@ {
        i
    } else {
        j
    };
    assert(cands[k]@ != cands[p]@);
    assert(k != p);
    lemma_redmean_positive(cands[p], cands[k]);
    assert(redmean(cands[p], cands[k]) <= redmean(cands[p], cands[s]));
    if cands[p]@ == cands[s]@ {
        let (cp, cs) = (cands[p], cands[s]);
        assert(cp[0] == cs[0] && cp[1] == cs[1] && cp[2] == cs[2]);
        let (dr, dg, db) = (cp[0] - cs[0], cp[1] - cs[1], cp[2] - cs[2]);
        assert(redmean(cp, cs) == 0) by (nonlinear_arith)
            requires
                dr == 0,
                dg == 0,
                db == 0,
                redmean(cp, cs) == (1024 + cp[0] + cs[0]) * dr * dr + 2048 * dg * dg + (1534 - cp[0]
                    - cs[0]) * db * db;
    }
}

proof fn lemma_redmean_positive(a: Color, b: Color)
    requires
        a@ != b@,
    ensures
        redmean(a, b) > 0,
{
    if a[0] == b[0] && a[1] == b[1] && a[2] == b[2] {
        assert(a@ =~= b@);
    }
    let dr = a[0] - b[0];
    let dg = a[1] - b[1];
    let db = a[2] - b[2];
    assert(redmean(a, b) > 0) by (nonlinear_arith)
        requires
            dr != 0 || dg != 0 || db != 0,
            1024 <= 1024 + a[0] + b[0],
            1024 <= 1534 - a[0] - b[0],
            redmean(a, b) == (1024 + a[0] + b[0]) * dr * dr + 2048 * dg * dg + (1534 - a[0] - b[0])
                * db * db;
}

} // verus!
