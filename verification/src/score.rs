//! Exact similarity scores and sensitivity thresholds.
//!
//! A score is the rational number `(len - dist) / len`, where `dist` is the
//! edit distance between two texts and `len` is the length of the longer
//! text (at least 1, so the value is always defined). Keeping the two
//! integers instead of a floating-point quotient lets every comparison be
//! exact: scores and thresholds are compared by cross-multiplication.

use vstd::prelude::*;

verus! {

/// A similarity score with value `(len - dist) / len`, in [0, 1].
/// The value 1 means the two texts were identical under the metric.
#[derive(Clone, Copy, Debug, PartialEq, Eq, Structural)]
pub struct Score {
    /// The edit distance between the two texts.
    pub dist: usize,
    /// The length of the longer text, and at least 1.
    pub len: usize,
}

impl Score {
    /// A well-formed score has a positive denominator and a value in [0, 1].
    pub open spec fn wf(self) -> bool {
        1 <= self.len && self.dist <= self.len
    }

    /// The numerator of the score's value.
    pub open spec fn num(self) -> int {
        self.len - self.dist
    }

    /// The denominator of the score's value.
    pub open spec fn den(self) -> int {
        self.len as int
    }

    /// The score of a pair of identical texts: `dist` is zero.
    pub open spec fn is_max(self) -> bool {
        self.dist == 0
    }

    pub fn new(dist: usize, len: usize) -> (r: Score)
        requires
            1 <= len,
            dist <= len,
        ensures
            r.dist == dist,
            r.len == len,
            r.wf(),
    {
        Score { dist, len }
    }
}

/// The value of `s1` is at most the value of `s2`:
/// `(len1 - dist1) / len1 <= (len2 - dist2) / len2`, cross-multiplied.
pub open spec fn score_le(s1: Score, s2: Score) -> bool {
    s1.num() * s2.den() <= s2.num() * s1.den()
}

/// The two scores have the same value (their fields may differ).
pub open spec fn score_eq(s1: Score, s2: Score) -> bool {
    score_le(s1, s2) && score_le(s2, s1)
}

/// `score_le` is transitive on well-formed scores.
pub proof fn lemma_score_le_trans(s1: Score, s2: Score, s3: Score)
    requires
        s1.wf(),
        s2.wf(),
        s3.wf(),
        score_le(s1, s2),
        score_le(s2, s3),
    ensures
        score_le(s1, s3),
{
    let a1 = s1.num();
    let a2 = s2.num();
    let a3 = s3.num();
    let l1 = s1.den();
    let l2 = s2.den();
    let l3 = s3.den();
    assert(a1 * l3 <= a3 * l1) by (nonlinear_arith)
        requires
            a1 * l2 <= a2 * l1,
            a2 * l3 <= a3 * l2,
            l1 >= 1,
            l2 >= 1,
            l3 >= 1,
    {
    }
}

/// The product of two values that each fit in 64 bits fits in 128 bits.
proof fn lemma_mul_fits_u128(x: int, y: int)
    requires
        0 <= x <= u64::MAX,
        0 <= y <= u64::MAX,
    ensures
        x * y <= u128::MAX,
{
    assert(x * y <= u64::MAX * u64::MAX) by (nonlinear_arith)
        requires
            0 <= x <= u64::MAX,
            0 <= y <= u64::MAX,
    {
    }
}

/// Compares two well-formed scores exactly.
pub fn score_le_exec(s1: &Score, s2: &Score) -> (r: bool)
    requires
        s1.wf(),
        s2.wf(),
    ensures
        r == score_le(*s1, *s2),
{
    proof {
        lemma_mul_fits_u128((s1.len - s1.dist) as int, s2.len as int);
        lemma_mul_fits_u128((s2.len - s2.dist) as int, s1.len as int);
    }
    let a = ((s1.len - s1.dist) as u128) * (s2.len as u128);
    let b = ((s2.len - s2.dist) as u128) * (s1.len as u128);
    a <= b
}

/// A sensitivity threshold with value `num / den`; `den` is at least 1.
///
/// A caller that works in millionths of a point passes `den == 1_000_000`.
/// A `num` larger than `den` (a value above 1) is allowed: such an upper
/// threshold excludes no score.
#[derive(Clone, Copy, Debug, PartialEq, Eq, Structural)]
pub struct Threshold {
    pub num: u64,
    pub den: u64,
}

impl Threshold {
    pub open spec fn wf(self) -> bool {
        1 <= self.den
    }

    pub fn new(num: u64, den: u64) -> (r: Threshold)
        requires
            1 <= den,
        ensures
            r.num == num,
            r.den == den,
            r.wf(),
    {
        Threshold { num, den }
    }
}

/// The score's value is at least the threshold's value.
pub open spec fn score_ge_threshold(s: Score, t: Threshold) -> bool {
    s.num() * t.den >= t.num * s.den()
}

/// The score's value is at most the threshold's value.
pub open spec fn score_le_threshold(s: Score, t: Threshold) -> bool {
    s.num() * t.den <= t.num * s.den()
}

/// The score lies in the closed sensitivity range `[lo, hi]`.
pub open spec fn in_range(s: Score, lo: Threshold, hi: Threshold) -> bool {
    score_ge_threshold(s, lo) && score_le_threshold(s, hi)
}

/// Decides exactly whether a score lies in the sensitivity range.
pub fn in_range_exec(s: &Score, lo: &Threshold, hi: &Threshold) -> (r: bool)
    requires
        s.wf(),
        lo.wf(),
        hi.wf(),
    ensures
        r == in_range(*s, *lo, *hi),
{
    proof {
        lemma_mul_fits_u128((s.len - s.dist) as int, lo.den as int);
        lemma_mul_fits_u128(lo.num as int, s.len as int);
        lemma_mul_fits_u128((s.len - s.dist) as int, hi.den as int);
        lemma_mul_fits_u128(hi.num as int, s.len as int);
    }
    let num = (s.len - s.dist) as u128;
    let den = s.len as u128;
    let ge_lo = num * (lo.den as u128) >= (lo.num as u128) * den;
    let le_hi = num * (hi.den as u128) <= (hi.num as u128) * den;
    ge_lo && le_hi
}

} // verus!
