//! Edit distance metrics and the scores they induce.
//!
//! Two metrics are supported. The Levenshtein distance (insertions,
//! deletions and substitutions) is specified by its standard recurrence
//! and computed here, proved equal to that recurrence. The
//! Damerau-Levenshtein distance (additionally counting adjacent
//! transpositions as single edits) is substantially more expensive and
//! algorithmically involved; it is computed by the eddie crate and left
//! uninterpreted. A distance is turned into a score by dividing it by the
//! longer string's length and subtracting from one, kept exact as the
//! `Score` rational.

use vstd::prelude::*;

use crate::score::Score;

verus! {

/// The smallest of three naturals.
pub open spec fn min3(x: nat, y: nat, z: nat) -> nat {
    if x <= y && x <= z {
        x
    } else if y <= z {
        y
    } else {
        z
    }
}

/// The Levenshtein edit distance between two character sequences: the least
/// number of single-character insertions, deletions and substitutions that
/// turn one into the other, by the standard recurrence.
pub open spec fn lev_dist(a: Seq<char>, b: Seq<char>) -> nat
    decreases a.len() + b.len(),
{
    if a.len() == 0 {
        b.len()
    } else if b.len() == 0 {
        a.len()
    } else {
        let del = lev_dist(a.drop_first(), b) + 1;
        let ins = lev_dist(a, b.drop_first()) + 1;
        let sub = lev_dist(a.drop_first(), b.drop_first()) + (
        if a[0] == b[0] {
            0nat
        } else {
            1nat
        });
        min3(del, ins, sub)
    }
}

/// The distance from a sequence to itself is zero.
pub proof fn lemma_lev_self(a: Seq<char>)
    ensures
        lev_dist(a, a) == 0,
    decreases a.len(),
{
    if a.len() > 0 {
        lemma_lev_self(a.drop_first());
    }
}

/// The Levenshtein distance is symmetric.
pub proof fn lemma_lev_sym(a: Seq<char>, b: Seq<char>)
    ensures
        lev_dist(a, b) == lev_dist(b, a),
    decreases a.len() + b.len(),
{
    if a.len() > 0 && b.len() > 0 {
        lemma_lev_sym(a.drop_first(), b);
        lemma_lev_sym(a, b.drop_first());
        lemma_lev_sym(a.drop_first(), b.drop_first());
    }
}

/// The distance never exceeds the longer sequence's length.
pub proof fn lemma_lev_le_max(a: Seq<char>, b: Seq<char>)
    ensures
        lev_dist(a, b) <= a.len() || lev_dist(a, b) <= b.len(),
        lev_dist(a, b) <= spec_max_len(a, b),
    decreases a.len() + b.len(),
{
    if a.len() > 0 && b.len() > 0 {
        lemma_lev_le_max(a.drop_first(), b.drop_first());
    }
}

/// The Damerau-Levenshtein distance between two character sequences; it
/// depends on the two sequences alone. Its value is taken on trust from the
/// eddie crate and pinned down only by the clauses of `damerau_distance`.
pub uninterp spec fn dam_dist(a: Seq<char>, b: Seq<char>) -> nat;

/// The longer of the two sequences' lengths, and at least 1: the
/// denominator a distance is normalized by.
pub open spec fn spec_max_len(a: Seq<char>, b: Seq<char>) -> nat {
    let longer = if a.len() >= b.len() {
        a.len()
    } else {
        b.len()
    };
    if longer >= 1 {
        longer
    } else {
        1
    }
}

/// Computes the Levenshtein distance between two character vectors:
/// dynamic programming over suffixes, one row per position in `a`, proved
/// equal to the recurrence `lev_dist`.
pub fn levenshtein_chars(a: &Vec<char>, b: &Vec<char>) -> (r: usize)
    ensures
        r == lev_dist(a@, b@),
{
    let m = a.len();
    let n = b.len();
    // row[j] holds the distance between the suffixes a[i..] and b[j..];
    // initially i == m, so what is left of b must be inserted
    let mut row: Vec<usize> = Vec::new();
    let mut j: usize = 0;
    while j < n
        invariant
            j <= n,
            n == b@.len(),
            m == a@.len(),
            row@.len() == j,
            forall|k: int| 0 <= k < j ==> row@[k] == lev_dist(a@.skip(m as int), b@.skip(k)),
        decreases n - j,
    {
        proof {
            assert(a@.skip(m as int) =~= Seq::<char>::empty());
            assert(b@.skip(j as int).len() == n - j);
        }
        row.push(n - j);
        j = j + 1;
    }
    proof {
        assert(a@.skip(m as int) =~= Seq::<char>::empty());
        assert(b@.skip(n as int).len() == 0);
    }
    row.push(0);
    let mut i: usize = m;
    while i > 0
        invariant
            i <= m,
            n == b@.len(),
            m == a@.len(),
            row@.len() == n + 1,
            forall|k: int| 0 <= k <= n ==> row@[k] == lev_dist(a@.skip(i as int), b@.skip(k)),
        decreases i,
    {
        let prev = i;
        i = i - 1;
        let mut fresh: Vec<usize> = Vec::new();
        let mut f: usize = 0;
        while f < n
            invariant
                f <= n,
                fresh@.len() == f,
            decreases n - f,
        {
            fresh.push(0);
            f = f + 1;
        }
        fresh.push(0);
        // with b's suffix empty, what is left of a must be deleted
        proof {
            assert(b@.skip(n as int) =~= Seq::<char>::empty());
            lemma_lev_sym(a@.skip(i as int), b@.skip(n as int));
            assert(a@.skip(i as int).len() == m - i);
        }
        fresh[n] = m - i;
        let mut jj: usize = n;
        while jj > 0
            invariant
                jj <= n,
                i < prev <= m,
                prev == i + 1,
                n == b@.len(),
                m == a@.len(),
                row@.len() == n + 1,
                fresh@.len() == n + 1,
                forall|k: int|
                    0 <= k <= n ==> row@[k] == lev_dist(a@.skip(prev as int), b@.skip(k)),
                forall|k: int|
                    jj <= k <= n ==> fresh@[k] == lev_dist(a@.skip(i as int), b@.skip(k)),
            decreases jj,
        {
            jj = jj - 1;
            let ca = a[i];
            let cb = b[jj];
            let del: u128 = row[jj] as u128 + 1;
            let ins: u128 = fresh[jj + 1] as u128 + 1;
            let sub: u128 = row[jj + 1] as u128 + (if ca == cb {
                0
            } else {
                1
            });
            let best: u128 = if del <= ins && del <= sub {
                del
            } else if ins <= sub {
                ins
            } else {
                sub
            };
            proof {
                let x = a@.skip(i as int);
                let y = b@.skip(jj as int);
                assert(x.len() == m - i && y.len() == n - jj);
                assert(x.drop_first() =~= a@.skip(prev as int));
                assert(y.drop_first() =~= b@.skip(jj + 1));
                assert(x[0] == a@[i as int] && y[0] == b@[jj as int]);
                assert(lev_dist(x, y) == min3(
                    lev_dist(a@.skip(prev as int), y) + 1,
                    lev_dist(x, b@.skip(jj + 1)) + 1,
                    lev_dist(a@.skip(prev as int), b@.skip(jj + 1)) + (if a@[i as int]
                        == b@[jj as int] {
                        0nat
                    } else {
                        1nat
                    }),
                ));
                assert(best == lev_dist(x, y));
                lemma_lev_le_max(x, y);
                assert(best <= usize::MAX);
            }
            let v: usize = best as usize;
            fresh[jj] = v;
        }
        row = fresh;
    }
    proof {
        assert(a@.skip(0) =~= a@);
        assert(b@.skip(0) =~= b@);
    }
    row[0]
}

/// Relies on eddie::slice::DamerauLevenshtein::distance: the
/// Damerau-Levenshtein distance over the strings' chars. The distance is a
/// function of the two character sequences alone; eddie documents it as a
/// symmetric metric, zero on equal strings, and (its `rel_dist` lying in
/// [0, 1]) at most the longer string's length or 1 for two empty strings.
#[verifier::external_body]
fn damerau_distance(a: &str, b: &str) -> (r: usize)
    ensures
        r == dam_dist(a@, b@),
        r == dam_dist(b@, a@),
        a@ == b@ ==> r == 0,
        r <= spec_max_len(a@, b@),
{
    let ca: std::vec::Vec<char> = a.chars().collect();
    let cb: std::vec::Vec<char> = b.chars().collect();
    eddie::slice::DamerauLevenshtein::new().distance(&ca, &cb)
}

/// The two interchangeable metrics. `Levenshtein` is the cheaper default;
/// `Damerau` also counts adjacent-character transpositions as single edits,
/// which is more robust to copy-paste mutations but much slower.
#[derive(Clone, Copy, Debug, PartialEq, Eq, Structural)]
pub enum Metric {
    Levenshtein,
    Damerau,
}

/// The distance the chosen metric assigns to a pair of character sequences.
pub open spec fn metric_dist(m: Metric, a: Seq<char>, b: Seq<char>) -> nat {
    match m {
        Metric::Levenshtein => lev_dist(a, b),
        Metric::Damerau => dam_dist(a, b),
    }
}

/// What a recorded score says of the two texts it was computed from:
/// its distance is the metric's distance in both argument orders (the
/// metrics are symmetric), zero for identical texts, and its denominator is
/// the longer text's length. These clauses pin the score down uniquely.
pub open spec fn score_matches(m: Metric, a: Seq<char>, b: Seq<char>, s: Score) -> bool {
    &&& s.len == spec_max_len(a, b)
    &&& s.dist == metric_dist(m, a, b)
    &&& s.dist == metric_dist(m, b, a)
    &&& (a == b ==> s.dist == 0)
    &&& s.wf()
}

/// Scores a pair of texts with the chosen metric. The result is the exact
/// rational form of `1 - dist / max(1, |a|, |b|)`.
pub fn score_strings(m: Metric, a: &str, b: &str) -> (r: Score)
    ensures
        score_matches(m, a@, b@, r),
{
    let ca = crate::content::string_chars(a);
    let cb = crate::content::string_chars(b);
    let la = ca.len();
    let lb = cb.len();
    let longer = if la >= lb {
        la
    } else {
        lb
    };
    let len = if longer >= 1 {
        longer
    } else {
        1
    };
    let dist = match m {
        Metric::Levenshtein => {
            proof {
                lemma_lev_sym(a@, b@);
                lemma_lev_le_max(a@, b@);
                if a@ == b@ {
                    lemma_lev_self(a@);
                }
            }
            levenshtein_chars(&ca, &cb)
        },
        Metric::Damerau => damerau_distance(a, b),
    };
    Score::new(dist, len)
}

/// Scoring a text against itself yields the maximal score, value 1,
/// whatever the metric.
pub proof fn lemma_score_reflexive(m: Metric, a: Seq<char>, s: Score)
    requires
        score_matches(m, a, a, s),
    ensures
        s.is_max(),
        s.num() == s.den(),
{
}

/// Scoring is symmetric: scores recorded for (a, b) and for (b, a) under
/// the same metric are equal.
pub proof fn lemma_score_symmetric(m: Metric, a: Seq<char>, b: Seq<char>, s1: Score, s2: Score)
    requires
        score_matches(m, a, b, s1),
        score_matches(m, b, a, s2),
    ensures
        s1 == s2,
{
}

/// Scoring is deterministic: any two scores recorded for the same texts
/// under the same metric are equal.
pub proof fn lemma_score_deterministic(m: Metric, a: Seq<char>, b: Seq<char>, s1: Score, s2: Score)
    requires
        score_matches(m, a, b, s1),
        score_matches(m, a, b, s2),
    ensures
        s1 == s2,
{
}

} // verus!
