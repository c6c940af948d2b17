//! Otsu's method: the global threshold that best separates dark from bright.

use crate::raster::Raster;
use vstd::prelude::*;

verus! {

/// Threshold reported for a picture without any sample.
pub const EMPTY_THRESHOLD: u8 = 128;

/// Most samples a picture may hold for the search to stay within 128-bit
/// arithmetic.
pub const MAX_PIXELS: u64 = 0x1000_0000;

/// How often the intensity `v` occurs among the samples.
pub open spec fn occurrences(samples: Seq<u8>, v: int) -> nat
    decreases samples.len(),
{
    if samples.len() == 0 {
        0
    } else {
        occurrences(samples.drop_last(), v) + if samples.last() == v {
            1nat
        } else {
            0nat
        }
    }
}

/// How many samples have an intensity of at most `t`.
pub open spec fn count_upto(samples: Seq<u8>, t: int) -> nat
    decreases samples.len(),
{
    if samples.len() == 0 {
        0
    } else {
        count_upto(samples.drop_last(), t) + if samples.last() <= t {
            1nat
        } else {
            0nat
        }
    }
}

/// The 256 buckets of a picture: bucket `v` counts the samples of intensity `v`.
pub open spec fn histogram_of(samples: Seq<u8>) -> Seq<u64> {
    Seq::new(256, |v: int| occurrences(samples, v) as u64)
}

/// Number of samples in the buckets `0..=t`.
pub open spec fn weight_upto(hist: Seq<u64>, t: int) -> int
    decreases t + 1,
{
    if t < 0 {
        0
    } else {
        weight_upto(hist, t - 1) + hist[t]
    }
}

/// Sum of the intensities of the samples in the buckets `0..=t`.
pub open spec fn moment_upto(hist: Seq<u64>, t: int) -> int
    decreases t + 1,
{
    if t < 0 {
        0
    } else {
        moment_upto(hist, t - 1) + t * hist[t]
    }
}

/// A candidate `t` splits the picture when some samples lie at or below it and
/// some above it.
pub open spec fn is_split(hist: Seq<u64>, t: int) -> bool {
    0 <= t < 256 && 0 < weight_upto(hist, t) < weight_upto(hist, 255)
}

/// Numerator of the between-class variance at `t`.
///
/// With `wB`, `wF` the weights and `mB`, `mF` the means of the two classes,
/// `wB * wF * (mB - mF)^2` equals `(sumB * total - sumTotal * wB)^2 / (wB * wF)`.
pub open spec fn spread_num(hist: Seq<u64>, t: int) -> int {
    let n = moment_upto(hist, t) * weight_upto(hist, 255) - moment_upto(hist, 255) * weight_upto(
        hist,
        t,
    );
    n * n
}

/// Denominator of the between-class variance at `t`: `wB * wF`.
pub open spec fn spread_den(hist: Seq<u64>, t: int) -> int {
    weight_upto(hist, t) * (weight_upto(hist, 255) - weight_upto(hist, t))
}

/// The between-class variance at `a` is strictly greater than at `b`.
pub open spec fn variance_gt(hist: Seq<u64>, a: int, b: int) -> bool {
    spread_num(hist, a) * spread_den(hist, b) > spread_num(hist, b) * spread_den(hist, a)
}

/// `t` is the threshold of Otsu's method for the histogram: 128 for a picture
/// without samples, 0 when no candidate splits the picture, and otherwise the
/// lowest of the splitting candidates with the greatest between-class variance.
pub open spec fn is_otsu_threshold(hist: Seq<u64>, t: int) -> bool {
    if weight_upto(hist, 255) == 0 {
        t == EMPTY_THRESHOLD
    } else if forall|s: int| !is_split(hist, s) {
        t == 0
    } else {
        &&& is_split(hist, t)
        &&& forall|s: int| #[trigger]
            is_split(hist, s) ==> !variance_gt(hist, s, t) && (s < t ==> variance_gt(hist, t, s))
    }
}

/// The weights grow with the candidate.
pub proof fn lemma_weight_monotone(hist: Seq<u64>, a: int, b: int)
    requires
        a <= b,
    ensures
        0 <= weight_upto(hist, a) <= weight_upto(hist, b),
    decreases b + 1,
{
    if b < 0 {
    } else if a == b {
        lemma_weight_monotone(hist, a - 1, b - 1);
    } else {
        lemma_weight_monotone(hist, a, b - 1);
    }
}

/// No sample weighs more than 255.
pub proof fn lemma_moment_bounded(hist: Seq<u64>, t: int)
    requires
        t <= 255,
    ensures
        0 <= moment_upto(hist, t) <= 255 * weight_upto(hist, t),
    decreases t + 1,
{
    if t >= 0 {
        lemma_moment_bounded(hist, t - 1);
        let h = hist[t] as int;
        assert(0 <= t * h <= 255 * h) by (nonlinear_arith)
            requires
                0 <= t <= 255,
                0 <= h,
        ;
    }
}

/// The moments grow with the candidate.
pub proof fn lemma_moment_monotone(hist: Seq<u64>, a: int, b: int)
    requires
        a <= b,
    ensures
        0 <= moment_upto(hist, a) <= moment_upto(hist, b),
    decreases b + 1,
{
    if b < 0 {
    } else {
        let h = hist[b] as int;
        assert(0 <= b * h) by (nonlinear_arith)
            requires
                0 <= b,
                0 <= h,
        ;
        if a == b {
            lemma_moment_monotone(hist, a - 1, b - 1);
        } else {
            lemma_moment_monotone(hist, a, b - 1);
        }
    }
}

/// A splitting candidate has a positive denominator and no negative numerator.
pub proof fn lemma_spread_signs(hist: Seq<u64>, t: int)
    requires
        is_split(hist, t),
    ensures
        0 <= spread_num(hist, t),
        0 < spread_den(hist, t),
{
    let n = moment_upto(hist, t) * weight_upto(hist, 255) - moment_upto(hist, 255) * weight_upto(
        hist,
        t,
    );
    assert(0 <= n * n) by (nonlinear_arith);
    let w = weight_upto(hist, t);
    let f = weight_upto(hist, 255) - w;
    assert(0 < w * f) by (nonlinear_arith)
        requires
            0 < w,
            0 < f,
    ;
}

/// Fractions with positive denominators are ordered transitively:
/// `a <= b` and `b < c` give `a < c`.
pub proof fn lemma_fraction_order(na: int, da: int, nb: int, db: int, nc: int, dc: int)
    requires
        0 < da,
        0 < db,
        0 < dc,
        0 <= na,
        0 <= nb,
        0 <= nc,
        na * db <= nb * da,
        nc * db > nb * dc,
    ensures
        nc * da > na * dc,
{
    assert((na * db) * dc <= (nb * da) * dc) by (nonlinear_arith)
        requires
            na * db <= nb * da,
            0 < dc,
    ;
    assert((nc * db) * da > (nb * dc) * da) by (nonlinear_arith)
        requires
            nc * db > nb * dc,
            0 < da,
    ;
    assert((nb * da) * dc == (nb * dc) * da) by (nonlinear_arith);
    assert((na * db) * dc == (na * dc) * db) by (nonlinear_arith);
    assert((nc * db) * da == (nc * da) * db) by (nonlinear_arith);
    assert(nc * da > na * dc) by (nonlinear_arith)
        requires
            (nc * da) * db > (na * dc) * db,
            0 < db,
    ;
}

/// The threshold of a histogram is unique: whatever meets the definition twice
/// is the same value, so that computing it again gives it again.
pub proof fn lemma_threshold_unique(hist: Seq<u64>, a: int, b: int)
    requires
        is_otsu_threshold(hist, a),
        is_otsu_threshold(hist, b),
    ensures
        a == b,
{
    if weight_upto(hist, 255) != 0 && !(forall|s: int| !is_split(hist, s)) {
        if a < b {
            assert(variance_gt(hist, b, a));
            assert(!variance_gt(hist, b, a));
        } else if b < a {
            assert(variance_gt(hist, a, b));
            assert(!variance_gt(hist, a, b));
        }
    }
}

/// Below the only populated bucket nothing has been counted, from it on
/// everything.
proof fn lemma_single_bucket_weights(hist: Seq<u64>, v: int, t: int)
    requires
        hist.len() == 256,
        0 <= v < 256,
        forall|i: int| 0 <= i < 256 && i != v ==> hist[i] == 0,
        t < 256,
    ensures
        weight_upto(hist, t) == if t < v {
            0
        } else {
            hist[v] as int
        },
    decreases t + 1,
{
    if t >= 0 {
        lemma_single_bucket_weights(hist, v, t - 1);
    }
}

/// A picture of a single intensity has no splitting candidate, and its
/// threshold is 0.
pub proof fn lemma_uniform_threshold(hist: Seq<u64>, v: int)
    requires
        hist.len() == 256,
        0 <= v < 256,
        hist[v] > 0,
        forall|i: int| 0 <= i < 256 && i != v ==> hist[i] == 0,
    ensures
        forall|s: int| !is_split(hist, s),
        is_otsu_threshold(hist, 0),
{
    lemma_single_bucket_weights(hist, v, 255);
    assert forall|s: int| !is_split(hist, s) by {
        if 0 <= s < 256 {
            lemma_single_bucket_weights(hist, v, s);
        }
    }
}

/// No intensity occurs more often than there are samples.
pub proof fn lemma_occurrences_bounded(samples: Seq<u8>, v: int)
    ensures
        occurrences(samples, v) <= samples.len(),
    decreases samples.len(),
{
    if samples.len() > 0 {
        lemma_occurrences_bounded(samples.drop_last(), v);
    }
}

/// Counting up to `t` is counting up to `t - 1` and then the samples equal to `t`.
proof fn lemma_count_step(samples: Seq<u8>, t: int)
    ensures
        count_upto(samples, t) == count_upto(samples, t - 1) + occurrences(samples, t),
    decreases samples.len(),
{
    if samples.len() > 0 {
        lemma_count_step(samples.drop_last(), t);
    }
}

/// Every sample is at most 255 and none is negative.
proof fn lemma_count_ends(samples: Seq<u8>)
    ensures
        count_upto(samples, -1) == 0,
        count_upto(samples, 255) == samples.len(),
    decreases samples.len(),
{
    if samples.len() > 0 {
        lemma_count_ends(samples.drop_last());
    }
}

/// The weights of a picture's histogram count its samples.
pub proof fn lemma_weight_counts(samples: Seq<u8>, t: int)
    requires
        -1 <= t < 256,
        samples.len() <= u64::MAX,
    ensures
        weight_upto(histogram_of(samples), t) == count_upto(samples, t),
    decreases t + 1,
{
    if t < 0 {
        lemma_count_ends(samples);
    } else {
        lemma_weight_counts(samples, t - 1);
        lemma_count_step(samples, t);
        lemma_occurrences_bounded(samples, t);
    }
}

/// The buckets of a picture's histogram add up to the number of its samples.
pub proof fn lemma_histogram_total(samples: Seq<u8>)
    requires
        samples.len() <= u64::MAX,
    ensures
        weight_upto(histogram_of(samples), 255) == samples.len(),
{
    lemma_weight_counts(samples, 255);
    lemma_count_ends(samples);
}

/// Counts the samples of each intensity.
pub fn histogram(raster: &Raster) -> (hist: [u64; 256])
    ensures
        hist@ == histogram_of(raster.data@),
{
    let mut hist: [u64; 256] = [0u64; 256];
    let n: usize = raster.data.len();
    let mut i: usize = 0;
    assert(raster.data@.take(0) =~= Seq::<u8>::empty());
    while i < n
        invariant
            i <= n,
            n == raster.data@.len(),
            hist@.len() == 256,
            forall|v: int| 0 <= v < 256 ==> #[trigger] hist@[v] == occurrences(raster.data@.take(i as int), v),
        decreases n - i,
    {
        let v: usize = raster.data[i] as usize;
        proof {
            lemma_occurrences_bounded(raster.data@.take(i as int), v as int);
            assert(raster.data@.take(i + 1).drop_last() =~= raster.data@.take(i as int));
        }
        let bumped: u64 = hist[v] + 1;
        hist[v] = bumped;
        i = i + 1;
    }
    proof {
        assert(raster.data@.take(n as int) =~= raster.data@);
        assert forall|v: int| 0 <= v < 256 implies hist@[v] == histogram_of(raster.data@)[v] by {
            lemma_occurrences_bounded(raster.data@, v);
        }
        assert(hist@ =~= histogram_of(raster.data@));
    }
    hist
}

/// Whether the fraction `n1 / d1` is strictly greater than `n2 / d2`, decided
/// without multiplying: by the integer parts first and, where they agree, by
/// the reciprocals of the fractional parts.
fn fraction_gt(n1: u128, d1: u128, n2: u128, d2: u128) -> (r: bool)
    requires
        d1 > 0,
        d2 > 0,
    ensures
        r == (n1 * d2 > n2 * d1),
    decreases d1 + d2,
{
    let q1: u128 = n1 / d1;
    let r1: u128 = n1 % d1;
    let q2: u128 = n2 / d2;
    let r2: u128 = n2 % d2;
    proof {
        assert(n1 == q1 * d1 + r1 && n2 == q2 * d2 + r2) by (nonlinear_arith)
            requires
                q1 == n1 / d1,
                r1 == n1 % d1,
                q2 == n2 / d2,
                r2 == n2 % d2,
                d1 > 0,
                d2 > 0,
        ;
        assert(n1 * d2 - n2 * d1 == (q1 - q2) * (d1 * d2) + (r1 * d2 - r2 * d1))
            by (nonlinear_arith)
            requires
                n1 == q1 * d1 + r1,
                n2 == q2 * d2 + r2,
        ;
        assert(-(d1 * d2) < r1 * d2 - r2 * d1 < d1 * d2) by (nonlinear_arith)
            requires
                0 <= r1 < d1,
                0 <= r2 < d2,
        ;
    }
    if q1 != q2 {
        proof {
            let k = q1 - q2;
            let dd = d1 * d2;
            assert(k >= 1 ==> k * dd >= dd) by (nonlinear_arith)
                requires
                    dd > 0,
            ;
            assert(k <= -1 ==> k * dd <= -dd) by (nonlinear_arith)
                requires
                    dd > 0,
            ;
            assert(d1 * d2 > 0) by (nonlinear_arith)
                requires
                    d1 > 0,
                    d2 > 0,
            ;
        }
        q1 > q2
    } else if r1 == 0 {
        proof {
            assert((q1 - q2) * (d1 * d2) == 0) by (nonlinear_arith)
                requires
                    q1 == q2,
            ;
            assert(0 * d2 - r2 * d1 <= 0) by (nonlinear_arith)
                requires
                    0 <= r2,
                    0 < d1,
            ;
        }
        false
    } else if r2 == 0 {
        proof {
            assert((q1 - q2) * (d1 * d2) == 0) by (nonlinear_arith)
                requires
                    q1 == q2,
            ;
            assert(r1 * d2 - 0 * d1 > 0) by (nonlinear_arith)
                requires
                    0 < r1,
                    0 < d2,
            ;
        }
        true
    } else {
        proof {
            assert((q1 - q2) * (d1 * d2) == 0) by (nonlinear_arith)
                requires
                    q1 == q2,
            ;
            assert(d2 * r1 == r1 * d2 && d1 * r2 == r2 * d1) by (nonlinear_arith);
        }
        fraction_gt(d2, r2, d1, r1)
    }
}

/// Finds the threshold of Otsu's method in a histogram, or `None` when the
/// histogram counts more than `MAX_PIXELS` samples.
pub fn otsu_from_histogram(hist: &[u64; 256]) -> (r: Option<u8>)
    ensures
        r is None <==> weight_upto(hist@, 255) > MAX_PIXELS,
        r matches Some(t) ==> is_otsu_threshold(hist@, t as int),
{
    let mut total: u64 = 0;
    let mut sum_total: u64 = 0;
    let mut i: usize = 0;
    while i < 256
        invariant
            i <= 256,
            total <= MAX_PIXELS,
            total == weight_upto(hist@, i - 1),
            sum_total == moment_upto(hist@, i - 1),
        decreases 256 - i,
    {
        proof {
            lemma_weight_monotone(hist@, i as int, 255);
            lemma_moment_bounded(hist@, i - 1);
        }
        if hist[i] > MAX_PIXELS - total {
            return None;
        }
        let count: u64 = hist[i];
        assert(i * count <= 255 * 0x1000_0000) by (nonlinear_arith)
            requires
                i <= 255,
                count <= 0x1000_0000,
        ;
        total = total + count;
        sum_total = sum_total + (i as u64) * count;
        i = i + 1;
    }
    if total == 0 {
        return Some(EMPTY_THRESHOLD);
    }
    let mut w_b: u64 = 0;
    let mut sum_b: u64 = 0;
    let mut found: bool = false;
    let mut threshold: u8 = 0;
    let mut best_num: u128 = 0;
    let mut best_den: u128 = 1;
    let mut t: usize = 0;
    while t < 256
        invariant
            t <= 256,
            0 < total <= MAX_PIXELS,
            total == weight_upto(hist@, 255),
            sum_total == moment_upto(hist@, 255),
            w_b == weight_upto(hist@, t - 1),
            sum_b == moment_upto(hist@, t - 1),
            !found ==> threshold == 0 && forall|s: int| 0 <= s < t ==> !is_split(hist@, s),
            found ==> threshold < t && is_split(hist@, threshold as int) && best_num == spread_num(
                hist@,
                threshold as int,
            ) && best_den == spread_den(hist@, threshold as int),
            found ==> forall|s: int| #[trigger]
                is_split(hist@, s) && s < t ==> !variance_gt(hist@, s, threshold as int) && (s
                    < threshold ==> variance_gt(hist@, threshold as int, s)),
        decreases 256 - t,
    {
        proof {
            lemma_weight_monotone(hist@, t as int, 255);
            lemma_weight_monotone(hist@, t - 1, t as int);
            lemma_moment_bounded(hist@, t as int);
            lemma_moment_bounded(hist@, 255);
            lemma_moment_monotone(hist@, t - 1, t as int);
        }
        w_b = w_b + hist[t];
        sum_b = sum_b + (t as u64) * hist[t];
        if w_b > 0 && w_b < total {
            let w_f: u64 = total - w_b;
            assert(sum_b * total <= 0xff00_0000_0000_0000 && sum_total * w_b
                <= 0xff00_0000_0000_0000 && w_b * w_f <= 0x0100_0000_0000_0000)
                by (nonlinear_arith)
                requires
                    sum_b <= 255 * 0x1000_0000,
                    sum_total <= 255 * 0x1000_0000,
                    total <= 0x1000_0000,
                    w_b <= 0x1000_0000,
                    w_f <= 0x1000_0000,
            ;
            let below: u128 = (sum_b as u128) * (total as u128);
            let above: u128 = (sum_total as u128) * (w_b as u128);
            let gap: u128 = if below >= above {
                below - above
            } else {
                above - below
            };
            assert(gap * gap <= 0xff00_0000_0000_0000 * 0xff00_0000_0000_0000 && gap * gap
                == (below - above) * (below - above)) by (nonlinear_arith)
                requires
                    gap <= 0xff00_0000_0000_0000,
                    gap == below - above || gap == above - below,
            ;
            let num: u128 = gap * gap;
            let den: u128 = (w_b as u128) * (w_f as u128);
            proof {
                assert(is_split(hist@, t as int));
                lemma_spread_signs(hist@, t as int);
                assert(num == spread_num(hist@, t as int));
                assert(den == spread_den(hist@, t as int));
                if found {
                    lemma_spread_signs(hist@, threshold as int);
                }
            }
            let better: bool = if found {
                fraction_gt(num, den, best_num, best_den)
            } else {
                true
            };
            if better {
                proof {
                    let old_t = threshold as int;
                    assert forall|s: int| #[trigger]
                        is_split(hist@, s) && s < t + 1 implies !variance_gt(hist@, s, t as int)
                        && (s < t ==> variance_gt(hist@, t as int, s)) by {
                        if s < t {
                            lemma_spread_signs(hist@, s);
                            lemma_spread_signs(hist@, old_t);
                            lemma_fraction_order(
                                spread_num(hist@, s),
                                spread_den(hist@, s),
                                spread_num(hist@, old_t),
                                spread_den(hist@, old_t),
                                spread_num(hist@, t as int),
                                spread_den(hist@, t as int),
                            );
                        }
                    }
                }
                found = true;
                threshold = t as u8;
                best_num = num;
                best_den = den;
            }
        }
        t = t + 1;
    }
    Some(threshold)
}

/// Computes the threshold of Otsu's method for a picture of at most
/// `MAX_PIXELS` samples.
pub fn otsu_threshold(raster: &Raster) -> (t: u8)
    requires
        raster.data@.len() <= MAX_PIXELS,
    ensures
        is_otsu_threshold(histogram_of(raster.data@), t as int),
{
    let hist = histogram(raster);
    proof {
        lemma_histogram_total(raster.data@);
    }
    match otsu_from_histogram(&hist) {
        Some(t) => t,
        None => EMPTY_THRESHOLD,
    }
}

/// Among samples that are all `v`, only `v` occurs.
proof fn lemma_uniform_occurrences(samples: Seq<u8>, v: u8, i: int)
    requires
        forall|k: int| 0 <= k < samples.len() ==> samples[k] == v,
    ensures
        occurrences(samples, i) == if i == v {
            samples.len()
        } else {
            0
        },
    decreases samples.len(),
{
    if samples.len() > 0 {
        lemma_uniform_occurrences(samples.drop_last(), v, i);
    }
}

/// A picture whose samples all have the same intensity gets the threshold 0,
/// whatever that intensity is.
pub proof fn lemma_uniform_picture_threshold(samples: Seq<u8>, v: u8)
    requires
        0 < samples.len() <= u64::MAX,
        forall|k: int| 0 <= k < samples.len() ==> samples[k] == v,
    ensures
        is_otsu_threshold(histogram_of(samples), 0),
{
    let hist = histogram_of(samples);
    assert forall|i: int| 0 <= i < 256 implies hist[i] == if i == v {
        samples.len() as u64
    } else {
        0u64
    } by {
        lemma_uniform_occurrences(samples, v, i);
    }
    lemma_uniform_threshold(hist, v as int);
}

} // verus!
