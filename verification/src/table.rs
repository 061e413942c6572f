//! The score table: one slot per canonical pair, owned by the aggregator.
//!
//! The table is created with every slot empty, one per job, and each
//! completed comparison fills exactly the slot its job index names. What
//! the finished table holds depends only on which outcomes arrived, never
//! on the order they arrived in or on how many workers produced them.

use vstd::prelude::*;

use crate::distance::Metric;
use crate::distance::lemma_score_deterministic;
use crate::distance::score_matches;
use crate::pairs::Job;
use crate::pairs::Pair;
use crate::pairs::pair_lt;
use crate::score::Score;

verus! {

/// One completed comparison: the job's position, its pair, and the score.
#[derive(Clone, Copy, Debug, PartialEq, Eq, Structural)]
pub struct ScoreRecord {
    pub idx: usize,
    pub pair: Pair,
    pub score: Score,
}

/// The score table. `pairs[i]` is the pair of job `i`; `slots[i]` is its
/// outcome, once one arrived. The table is owned by the single aggregator;
/// it grows monotonically and is frozen once every slot is filled.
pub struct ScoreTable {
    pub pairs: Vec<Pair>,
    pub slots: Vec<Option<Score>>,
}

impl ScoreTable {
    /// One slot per pair, pairs strictly ordered (so no pair is held twice),
    /// and every filled slot holds a well-formed score.
    pub open spec fn wf(self) -> bool {
        &&& self.pairs@.len() == self.slots@.len()
        &&& forall|i: int, j: int|
            0 <= i < j < self.pairs@.len() ==> pair_lt(self.pairs@[i], self.pairs@[j])
        &&& forall|i: int|
            0 <= i < self.slots@.len() ==> match #[trigger] self.slots@[i] {
                Some(s) => s.wf(),
                None => true,
            }
    }

    /// The number of slots (one per job).
    pub open spec fn size(self) -> nat {
        self.pairs@.len()
    }

    /// Every slot has received its outcome.
    pub open spec fn complete(self) -> bool {
        forall|i: int| 0 <= i < self.slots@.len() ==> (#[trigger] self.slots@[i]) is Some
    }

    /// An empty table for the given job list.
    pub fn new(jobs: &Vec<Job>) -> (t: ScoreTable)
        requires
            forall|i: int, j: int|
                0 <= i < j < jobs@.len() ==> pair_lt(jobs@[i].pair, jobs@[j].pair),
        ensures
            t.wf(),
            t.size() == jobs@.len(),
            forall|i: int| 0 <= i < jobs@.len() ==> t.pairs@[i] == (#[trigger] jobs@[i]).pair,
            forall|i: int| 0 <= i < jobs@.len() ==> (#[trigger] t.slots@[i]) is None,
    {
        let mut pairs: Vec<Pair> = Vec::new();
        let mut slots: Vec<Option<Score>> = Vec::new();
        let mut k: usize = 0;
        while k < jobs.len()
            invariant
                k <= jobs@.len(),
                pairs@.len() == k,
                slots@.len() == k,
                forall|i: int, j: int|
                    0 <= i < j < jobs@.len() ==> pair_lt(jobs@[i].pair, jobs@[j].pair),
                forall|i: int| 0 <= i < k ==> pairs@[i] == (#[trigger] jobs@[i]).pair,
                forall|i: int| 0 <= i < k ==> (#[trigger] slots@[i]) is None,
            decreases jobs@.len() - k,
        {
            pairs.push(jobs[k].pair);
            slots.push(None);
            k = k + 1;
        }
        proof {
            assert forall|i: int, j: int|
                0 <= i < j < pairs@.len() implies pair_lt(pairs@[i], pairs@[j]) by {
                assert(pairs@[i] == jobs@[i].pair);
                assert(pairs@[j] == jobs@[j].pair);
            }
        }
        ScoreTable { pairs, slots }
    }

    /// How many slots the table has.
    pub fn len(&self) -> (r: usize)
        requires
            self.wf(),
        ensures
            r == self.size(),
    {
        self.pairs.len()
    }

    /// Whether slot `idx` has already received its outcome.
    pub fn filled(&self, idx: usize) -> (r: bool)
        requires
            self.wf(),
            idx < self.size(),
        ensures
            r == (self.slots@[idx as int] is Some),
    {
        self.slots[idx].is_some()
    }

    /// The outcome in slot `idx`, if one arrived.
    pub fn get(&self, idx: usize) -> (r: Option<Score>)
        requires
            self.wf(),
            idx < self.size(),
        ensures
            r == self.slots@[idx as int],
    {
        self.slots[idx]
    }

    /// Records one outcome: fills the slot the record's index names and
    /// touches nothing else.
    pub fn insert(&mut self, rec: ScoreRecord)
        requires
            old(self).wf(),
            rec.idx < old(self).size(),
            rec.pair == old(self).pairs@[rec.idx as int],
            rec.score.wf(),
        ensures
            final(self).wf(),
            final(self).pairs@ == old(self).pairs@,
            final(self).slots@ == old(self).slots@.update(rec.idx as int, Some(rec.score)),
    {
        self.slots[rec.idx] = Some(rec.score);
    }
}

/// The records of a complete table, in job order: slot `i` yields the
/// record with index `i`, the table's pair for `i`, and the slot's score.
pub open spec fn table_records(t: ScoreTable) -> Seq<ScoreRecord> {
    Seq::new(
        t.size(),
        |i: int|
            ScoreRecord { idx: i as usize, pair: t.pairs@[i], score: t.slots@[i]->Some_0 },
    )
}

/// Some record in `s` carries the job index `i`.
pub open spec fn has_idx(s: Seq<ScoreRecord>, i: int) -> bool {
    exists|j: int| 0 <= j < s.len() && (#[trigger] s[j]).idx == i
}

/// The table holds exactly the outcomes `recs`: each record fills the slot
/// its index names with its score, and no slot is filled that no record
/// accounts for.
pub open spec fn records_fill(t: ScoreTable, recs: Seq<ScoreRecord>) -> bool {
    &&& forall|k: int|
        0 <= k < recs.len() ==> {
            let r = #[trigger] recs[k];
            &&& r.idx < t.size()
            &&& r.pair == t.pairs@[r.idx as int]
            &&& t.slots@[r.idx as int] == Some(r.score)
        }
    &&& forall|i: int|
        0 <= i < t.size() && (#[trigger] t.slots@[i]) is Some ==> exists|k: int|
            0 <= k < recs.len() && (#[trigger] recs[k]).idx == i
}

/// Aggregation is order-independent: two tables over the same pairs that
/// hold the same set of outcomes are equal, however and in whatever order
/// those outcomes were inserted. This is why the worker pool's size and
/// scheduling cannot change the result.
pub proof fn lemma_aggregation_order_independent(
    t1: ScoreTable,
    t2: ScoreTable,
    recs1: Seq<ScoreRecord>,
    recs2: Seq<ScoreRecord>,
)
    requires
        t1.wf(),
        t2.wf(),
        t1.pairs@ == t2.pairs@,
        records_fill(t1, recs1),
        records_fill(t2, recs2),
        forall|r: ScoreRecord| recs1.contains(r) <==> recs2.contains(r),
    ensures
        t1.slots@ =~= t2.slots@,
{
    assert forall|i: int| 0 <= i < t1.slots@.len() implies t1.slots@[i] == t2.slots@[i] by {
        if t1.slots@[i] is Some {
            let k = choose|k: int| 0 <= k < recs1.len() && (#[trigger] recs1[k]).idx == i;
            let r = recs1[k];
            assert(recs1.contains(r));
            assert(recs2.contains(r));
            let k2 = choose|k2: int| 0 <= k2 < recs2.len() && recs2[k2] == r;
            assert(recs2[k2].idx == i);
            assert(t2.slots@[i] == Some(r.score));
            assert(t1.slots@[i] == Some(r.score));
        }
        if t2.slots@[i] is Some {
            let k = choose|k: int| 0 <= k < recs2.len() && (#[trigger] recs2[k]).idx == i;
            let r = recs2[k];
            assert(recs2.contains(r));
            assert(recs1.contains(r));
            let k1 = choose|k1: int| 0 <= k1 < recs1.len() && recs1[k1] == r;
            assert(recs1[k1].idx == i);
            assert(t1.slots@[i] == Some(r.score));
            assert(t2.slots@[i] == Some(r.score));
        }
    }
}

/// Every slot is filled, with the score the metric assigns to the slot's
/// pair of texts.
pub open spec fn table_matches(t: ScoreTable, m: Metric, texts: Seq<Seq<char>>) -> bool {
    &&& t.pairs@.len() == t.slots@.len()
    &&& forall|i: int|
        0 <= i < t.pairs@.len() ==> {
            let p = #[trigger] t.pairs@[i];
            &&& p.a < texts.len()
            &&& p.b < texts.len()
            &&& match t.slots@[i] {
                Some(s) => score_matches(m, texts[p.a as int], texts[p.b as int], s),
                None => false,
            }
        }
}

/// Scoring is deterministic, so the finished table is a function of the
/// texts and the metric alone: two complete tables over the same pairs and
/// the same texts are equal.
pub proof fn lemma_table_deterministic(
    t1: ScoreTable,
    t2: ScoreTable,
    m: Metric,
    texts: Seq<Seq<char>>,
)
    requires
        t1.pairs@ == t2.pairs@,
        table_matches(t1, m, texts),
        table_matches(t2, m, texts),
    ensures
        t1.slots@ =~= t2.slots@,
{
    assert forall|i: int| 0 <= i < t1.slots@.len() implies t1.slots@[i] == t2.slots@[i] by {
        let p = t1.pairs@[i];
        match (t1.slots@[i], t2.slots@[i]) {
            (Some(s1), Some(s2)) => {
                lemma_score_deterministic(
                    m,
                    texts[p.a as int],
                    texts[p.b as int],
                    s1,
                    s2,
                );
            },
            _ => {
            },
        }
    }
}

} // verus!
