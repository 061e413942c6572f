//! Canonical pairs, the job list, and the work queue.
//!
//! Files are identified by their index into the content store. Every
//! unordered pair of distinct files is represented exactly once, as the
//! canonical pair `(a, b)` with `a < b`; the job list enumerates the
//! canonical pairs in strictly increasing lexicographic order, so no pair
//! is compared twice and none is skipped.

use vstd::prelude::*;

verus! {

/// A canonical unordered pair of file indices.
#[derive(Clone, Copy, Debug, PartialEq, Eq, Structural)]
pub struct Pair {
    pub a: usize,
    pub b: usize,
}

impl Pair {
    /// Canonical under `n` files: `a < b < n`, so each unordered pair of
    /// distinct files has exactly one representative and self-pairs none.
    pub open spec fn wf(self, n: nat) -> bool {
        self.a < self.b < n
    }
}

/// Strict lexicographic order on pairs.
pub open spec fn pair_lt(p1: Pair, p2: Pair) -> bool {
    p1.a < p2.a || (p1.a == p2.a && p1.b < p2.b)
}

/// Lexicographic order on pairs.
pub open spec fn pair_le(p1: Pair, p2: Pair) -> bool {
    pair_lt(p1, p2) || p1 == p2
}

/// Decides the lexicographic order on pairs.
pub fn pair_le_exec(p1: &Pair, p2: &Pair) -> (r: bool)
    ensures
        r == pair_le(*p1, *p2),
{
    p1.a < p2.a || (p1.a == p2.a && p1.b <= p2.b)
}

/// The job list holds the canonical pair `(x, y)` somewhere.
pub open spec fn has_pair(jobs: Seq<Job>, x: usize, y: usize) -> bool {
    exists|i: int| 0 <= i < jobs.len() && (#[trigger] jobs[i]).pair == (Pair { a: x, b: y })
}

/// The pair list holds the canonical pair `(x, y)` somewhere.
pub open spec fn pair_in(pairs: Seq<Pair>, x: usize, y: usize) -> bool {
    exists|i: int| 0 <= i < pairs.len() && (#[trigger] pairs[i]) == (Pair { a: x, b: y })
}

/// The sequence enumerates every canonical pair of `n` files exactly once,
/// in strictly increasing lexicographic order: `n(n-1)/2` pairs in all.
pub open spec fn canonical_enumeration(pairs: Seq<Pair>, n: nat) -> bool {
    &&& pairs.len() == n * (n - 1) / 2
    &&& forall|i: int| 0 <= i < pairs.len() ==> (#[trigger] pairs[i]).wf(n)
    &&& forall|i: int, j: int| 0 <= i < j < pairs.len() ==> pair_lt(pairs[i], pairs[j])
    &&& forall|x: usize, y: usize| x < y < n ==> #[trigger] pair_in(pairs, x, y)
}

/// Strictly ordered pair sequences with the same members are equal.
pub proof fn lemma_strictly_sorted_pairs_unique(s1: Seq<Pair>, s2: Seq<Pair>)
    requires
        forall|i: int, j: int| 0 <= i < j < s1.len() ==> pair_lt(s1[i], s1[j]),
        forall|i: int, j: int| 0 <= i < j < s2.len() ==> pair_lt(s2[i], s2[j]),
        forall|p: Pair| s1.contains(p) <==> s2.contains(p),
    ensures
        s1 =~= s2,
    decreases s1.len(),
{
    if s1.len() == 0 {
        if s2.len() > 0 {
            assert(s2.contains(s2[0]));
            assert(s1.contains(s2[0]));
        }
        assert(s2.len() == 0);
    } else {
        assert(s1.contains(s1[0]));
        assert(s2.contains(s1[0]));
        let k2 = choose|k: int| 0 <= k < s2.len() && s2[k] == s1[0];
        assert(s2.contains(s2[0]));
        assert(s1.contains(s2[0]));
        let k1 = choose|k: int| 0 <= k < s1.len() && s1[k] == s2[0];
        if k2 > 0 {
            assert(pair_lt(s2[0], s2[k2]));
        }
        if k1 > 0 {
            assert(pair_lt(s1[0], s1[k1]));
        }
        assert(s1[0] == s2[0]);
        let t1 = s1.remove(0);
        let t2 = s2.remove(0);
        assert forall|i: int, j: int| 0 <= i < j < t1.len() implies pair_lt(t1[i], t1[j]) by {
            assert(t1[i] == s1[i + 1]);
            assert(t1[j] == s1[j + 1]);
        }
        assert forall|i: int, j: int| 0 <= i < j < t2.len() implies pair_lt(t2[i], t2[j]) by {
            assert(t2[i] == s2[i + 1]);
            assert(t2[j] == s2[j + 1]);
        }
        assert forall|p: Pair| t1.contains(p) <==> t2.contains(p) by {
            lemma_tail_membership(s1, p);
            lemma_tail_membership(s2, p);
        }
        lemma_strictly_sorted_pairs_unique(t1, t2);
        assert forall|i: int| 0 <= i < s1.len() implies s1[i] == s2[i] by {
            if i > 0 {
                assert(t1[i - 1] == s1[i]);
                assert(t2[i - 1] == s2[i]);
            }
        }
    }
}

/// In a strictly ordered pair sequence, the tail's members are exactly the
/// members other than the head.
proof fn lemma_tail_membership(s: Seq<Pair>, p: Pair)
    requires
        s.len() > 0,
        forall|i: int, j: int| 0 <= i < j < s.len() ==> pair_lt(s[i], s[j]),
    ensures
        s.remove(0).contains(p) <==> (s.contains(p) && p != s[0]),
{
    let t = s.remove(0);
    if t.contains(p) {
        let i = choose|i: int| 0 <= i < t.len() && t[i] == p;
        assert(t[i] == s[i + 1]);
        assert(s.contains(p));
        assert(pair_lt(s[0], s[i + 1]));
    }
    if s.contains(p) && p != s[0] {
        let i = choose|i: int| 0 <= i < s.len() && s[i] == p;
        assert(i > 0);
        assert(t[i - 1] == s[i]);
        assert(t.contains(p));
    }
}

/// A pending comparison: a canonical pair together with its position in
/// the canonical job list.
#[derive(Clone, Copy, Debug, PartialEq, Eq, Structural)]
pub struct Job {
    pub idx: usize,
    pub pair: Pair,
}

/// The number of canonical pairs whose first index is below `a`, out of
/// `n` files: the sum of `n - k` for `k` from 1 to `a`.
pub open spec fn pairs_below(n: int, a: int) -> int
    decreases a,
{
    if a <= 0 {
        0
    } else {
        pairs_below(n, a - 1) + (n - a)
    }
}

/// Closed form of `pairs_below`: twice the sum is `a * (2n - a - 1)`.
pub proof fn lemma_pairs_below_closed(n: int, a: int)
    requires
        0 <= a <= n,
    ensures
        2 * pairs_below(n, a) == a * (2 * n - a - 1),
    decreases a,
{
    if a == 0 {
        assert(pairs_below(n, 0) == 0);
        assert(a * (2 * n - a - 1) == 0) by (nonlinear_arith)
            requires
                a == 0,
        {
        }
    } else {
        lemma_pairs_below_closed(n, a - 1);
        let p1 = pairs_below(n, a - 1);
        let p = pairs_below(n, a);
        assert(p == p1 + (n - a));
        assert(2 * p1 == (a - 1) * (2 * n - (a - 1) - 1));
        assert(2 * p == a * (2 * n - a - 1)) by (nonlinear_arith)
            requires
                2 * p1 == (a - 1) * (2 * n - (a - 1) - 1),
                p == p1 + (n - a),
        {
        }
    }
}

/// All canonical pairs of `n` files: `pairs_below(n, n) == n(n-1)/2`.
pub proof fn lemma_pair_count(n: int)
    requires
        0 <= n,
    ensures
        pairs_below(n, n) == n * (n - 1) / 2,
        2 * pairs_below(n, n) == n * (n - 1),
{
    lemma_pairs_below_closed(n, n);
    assert(n * (2 * n - n - 1) == n * (n - 1)) by (nonlinear_arith);
}

/// Enumerates every canonical pair of `n` files exactly once, in strictly
/// increasing lexicographic order, as a job list whose jobs carry their own
/// positions. Produces exactly `n(n-1)/2` jobs.
pub fn generate_jobs(n: usize) -> (jobs: Vec<Job>)
    requires
        n * (n - 1) / 2 <= usize::MAX,
    ensures
        jobs@.len() == n * (n - 1) / 2,
        forall|i: int| 0 <= i < jobs@.len() ==> (#[trigger] jobs@[i]).idx == i,
        forall|i: int| 0 <= i < jobs@.len() ==> (#[trigger] jobs@[i]).pair.wf(n as nat),
        forall|i: int, j: int|
            0 <= i < j < jobs@.len() ==> pair_lt(jobs@[i].pair, jobs@[j].pair),
        forall|x: usize, y: usize| x < y < n ==> #[trigger] has_pair(jobs@, x, y),
{
    proof {
        lemma_pair_count(n as int);
    }
    let mut jobs: Vec<Job> = Vec::new();
    let mut a: usize = 0;
    while a < n
        invariant
            a <= n,
            n * (n - 1) / 2 <= usize::MAX,
            2 * pairs_below(n as int, n as int) == n * (n as int - 1),
            jobs@.len() == pairs_below(n as int, a as int),
            forall|i: int| 0 <= i < jobs@.len() ==> (#[trigger] jobs@[i]).idx == i,
            forall|i: int| 0 <= i < jobs@.len() ==> (#[trigger] jobs@[i]).pair.wf(n as nat),
            forall|i: int| 0 <= i < jobs@.len() ==> (#[trigger] jobs@[i]).pair.a < a,
            forall|i: int, j: int|
                0 <= i < j < jobs@.len() ==> pair_lt(jobs@[i].pair, jobs@[j].pair),
            forall|x: usize, y: usize|
                x < y < n && x < a ==> #[trigger] has_pair(jobs@, x, y),
        decreases n - a,
    {
        let mut b: usize = a + 1;
        while b < n
            invariant
                a < n,
                a < b <= n,
                n * (n - 1) / 2 <= usize::MAX,
                2 * pairs_below(n as int, n as int) == n * (n as int - 1),
                jobs@.len() == pairs_below(n as int, a as int) + (b - a - 1),
                forall|i: int| 0 <= i < jobs@.len() ==> (#[trigger] jobs@[i]).idx == i,
                forall|i: int| 0 <= i < jobs@.len() ==> (#[trigger] jobs@[i]).pair.wf(n as nat),
                forall|i: int|
                    0 <= i < jobs@.len() ==> pair_lt(
                        (#[trigger] jobs@[i]).pair,
                        Pair { a, b },
                    ),
                forall|i: int, j: int|
                    0 <= i < j < jobs@.len() ==> pair_lt(jobs@[i].pair, jobs@[j].pair),
                forall|x: usize, y: usize|
                    x < y < n && (x < a || (x == a && y < b)) ==> #[trigger] has_pair(
                        jobs@,
                        x,
                        y,
                    ),
            decreases n - b,
        {
            let pair = Pair { a, b };
            let idx = jobs.len();
            let ghost prev = jobs@;
            jobs.push(Job { idx, pair });
            proof {
                assert forall|x: usize, y: usize|
                    x < y < n && (x < a || (x == a && y < b + 1)) implies #[trigger] has_pair(
                    jobs@,
                    x,
                    y,
                ) by {
                    if x == a && y == b {
                        assert(jobs@[prev.len() as int].pair == (Pair { a: x, b: y }));
                    } else {
                        assert(has_pair(prev, x, y));
                        let i = choose|i: int|
                            0 <= i < prev.len() && (#[trigger] prev[i]).pair == (Pair {
                                a: x,
                                b: y,
                            });
                        assert(jobs@[i].pair == (Pair { a: x, b: y }));
                    }
                }
            }
            b = b + 1;
        }
        a = a + 1;
    }
    proof {
        lemma_pair_count(n as int);
    }
    jobs
}

/// The shared queue of pending comparisons. It is filled once, before any
/// worker runs, and only drained afterwards; `pop` hands out the last job,
/// so each job is delivered to exactly one caller, and returns `None` to
/// every caller once the queue is empty -- the workers' sole termination
/// signal. The order in which jobs leave the queue carries no meaning.
pub struct WorkQueue {
    jobs: Vec<Job>,
}

impl WorkQueue {
    /// The pending jobs, oldest first.
    pub closed spec fn view(&self) -> Seq<Job> {
        self.jobs@
    }

    pub fn new(jobs: Vec<Job>) -> (q: WorkQueue)
        ensures
            q@ == jobs@,
    {
        WorkQueue { jobs }
    }

    pub fn len(&self) -> (r: usize)
        ensures
            r == self@.len(),
    {
        self.jobs.len()
    }

    /// Claims the next pending job; `None` once the queue is empty.
    pub fn pop(&mut self) -> (r: Option<Job>)
        ensures
            old(self)@.len() == 0 ==> r is None && final(self)@ == old(self)@,
            old(self)@.len() > 0 ==> r == Some(old(self)@.last()) && final(self)@ == old(
                self,
            )@.drop_last(),
    {
        self.jobs.pop()
    }
}

} // verus!
