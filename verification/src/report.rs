//! The persisted report: every outcome, in a deterministic order.
//!
//! The log lists all pairs sorted by descending score value. Score alone
//! does not determine an order (distinct pairs can tie), so the report
//! order breaks ties by ascending lexicographic pair order; with distinct
//! pairs that makes the sorted report unique, hence reproducible across
//! runs.

use vstd::prelude::*;

use crate::pairs::pair_le;
use crate::pairs::pair_le_exec;
use crate::score::lemma_score_le_trans;
use crate::score::score_le;
use crate::score::score_le_exec;
use crate::table::ScoreRecord;

verus! {

/// The report order: `r1` comes no later than `r2` when its score value is
/// no smaller, and, for equal values, when its pair is lexicographically
/// no larger.
pub open spec fn report_le(r1: ScoreRecord, r2: ScoreRecord) -> bool {
    &&& score_le(r2.score, r1.score)
    &&& (score_le(r1.score, r2.score) ==> pair_le(r1.pair, r2.pair))
}

/// Any two records are comparable in the report order.
pub proof fn lemma_report_le_total(r1: ScoreRecord, r2: ScoreRecord)
    ensures
        report_le(r1, r2) || report_le(r2, r1),
{
}

/// The report order is transitive on well-formed scores.
pub proof fn lemma_report_le_trans(r1: ScoreRecord, r2: ScoreRecord, r3: ScoreRecord)
    requires
        r1.score.wf(),
        r2.score.wf(),
        r3.score.wf(),
        report_le(r1, r2),
        report_le(r2, r3),
    ensures
        report_le(r1, r3),
{
    lemma_score_le_trans(r3.score, r2.score, r1.score);
    if score_le(r1.score, r3.score) {
        lemma_score_le_trans(r1.score, r3.score, r2.score);
        lemma_score_le_trans(r2.score, r1.score, r3.score);
    }
}

/// Decides the report order.
pub fn report_le_exec(r1: &ScoreRecord, r2: &ScoreRecord) -> (r: bool)
    requires
        r1.score.wf(),
        r2.score.wf(),
    ensures
        r == report_le(*r1, *r2),
{
    let no_smaller = score_le_exec(&r2.score, &r1.score);
    let no_larger = score_le_exec(&r1.score, &r2.score);
    no_smaller && (!no_larger || pair_le_exec(&r1.pair, &r2.pair))
}

/// The sequence is sorted in the report order.
pub open spec fn sorted_by_report(s: Seq<ScoreRecord>) -> bool {
    forall|i: int, j: int| 0 <= i < j < s.len() ==> report_le(s[i], s[j])
}

/// Sorts the outcomes into the report order: descending by score value,
/// ties broken by ascending pair order. The result holds exactly the given
/// records.
pub fn sort_records(recs: &Vec<ScoreRecord>) -> (out: Vec<ScoreRecord>)
    requires
        forall|k: int| 0 <= k < recs@.len() ==> (#[trigger] recs@[k]).score.wf(),
    ensures
        out@.len() == recs@.len(),
        out@.to_multiset() == recs@.to_multiset(),
        sorted_by_report(out@),
        forall|k: int| 0 <= k < out@.len() ==> recs@.contains(#[trigger] out@[k]),
{
    broadcast use vstd::seq_lib::group_to_multiset_ensures;

    let mut out: Vec<ScoreRecord> = Vec::new();
    let mut i: usize = 0;
    proof {
        assert(recs@.take(0) =~= Seq::<ScoreRecord>::empty());
        assert(out@.to_multiset() =~= recs@.take(0).to_multiset());
    }
    while i < recs.len()
        invariant
            i <= recs@.len(),
            out@.len() == i,
            forall|k: int| 0 <= k < recs@.len() ==> (#[trigger] recs@[k]).score.wf(),
            out@.to_multiset() == recs@.take(i as int).to_multiset(),
            sorted_by_report(out@),
            forall|k: int| 0 <= k < out@.len() ==> recs@.contains(#[trigger] out@[k]),
            forall|k: int| 0 <= k < out@.len() ==> (#[trigger] out@[k]).score.wf(),
        decreases recs@.len() - i,
    {
        let rec = recs[i];
        let ghost before = out@;
        let mut pos: usize = 0;
        while pos < out.len() && report_le_exec(&out[pos], &rec)
            invariant
                pos <= out@.len(),
                rec.score.wf(),
                sorted_by_report(out@),
                forall|k: int| 0 <= k < out@.len() ==> (#[trigger] out@[k]).score.wf(),
                forall|k: int| 0 <= k < pos ==> report_le(#[trigger] out@[k], rec),
            decreases out@.len() - pos,
        {
            pos = pos + 1;
        }
        proof {
            if pos < out@.len() {
                lemma_report_le_total(out@[pos as int], rec);
            }
            assert forall|k: int| pos <= k < out@.len() implies report_le(
                rec,
                #[trigger] out@[k],
            ) by {
                if k > pos {
                    lemma_report_le_trans(rec, out@[pos as int], out@[k]);
                }
            }
        }
        out.insert(pos, rec);
        proof {
            assert(out@ == before.insert(pos as int, rec));
            assert(recs@.take(i + 1).drop_last() =~= recs@.take(i as int));
            assert(recs@.take(i + 1).last() == rec);
            assert(recs@.take(i + 1) =~= recs@.take(i as int).push(rec));
            vstd::seq_lib::to_multiset_insert(before, pos as int, rec);
            vstd::seq_lib::to_multiset_build(recs@.take(i as int), rec);
            assert(out@.to_multiset() =~= recs@.take(i + 1).to_multiset());
            assert forall|a: int, b: int| 0 <= a < b < out@.len() implies report_le(
                out@[a],
                out@[b],
            ) by {
                assert(sorted_by_report(before));
            }
            assert(recs@.contains(rec)) by {
                assert(recs@[i as int] == rec);
            }
        }
        i = i + 1;
    }
    proof {
        assert(recs@.take(recs@.len() as int) =~= recs@);
    }
    out
}

/// No two records hold the same pair -- true of anything drawn from a
/// score table, which holds each canonical pair once.
pub open spec fn distinct_pairs(s: Seq<ScoreRecord>) -> bool {
    forall|i: int, j: int| 0 <= i < j < s.len() ==> s[i].pair != s[j].pair
}

/// On records with distinct pairs the report order is strict, so the
/// sorted report is unique: two sorted sequences holding the same records
/// are equal. Repeated runs over the same inputs therefore persist their
/// logs in the same order.
pub proof fn lemma_sorted_report_unique(s1: Seq<ScoreRecord>, s2: Seq<ScoreRecord>)
    requires
        sorted_by_report(s1),
        sorted_by_report(s2),
        s1.to_multiset() == s2.to_multiset(),
        distinct_pairs(s1),
        distinct_pairs(s2),
    ensures
        s1 =~= s2,
    decreases s1.len(),
{
    broadcast use vstd::seq_lib::group_to_multiset_ensures;

    assert(s1.len() == s1.to_multiset().len());
    assert(s2.len() == s2.to_multiset().len());
    if s1.len() > 0 {
        let first = s1[0];
        assert(s1.contains(first));
        assert(s2.to_multiset().count(first) > 0);
        assert(s2.contains(first));
        let k2 = choose|k: int| 0 <= k < s2.len() && s2[k] == first;
        if k2 > 0 {
            assert(report_le(s2[0], s2[k2]));
        }
        assert(report_le(s2[0], first));
        assert(s1.to_multiset().count(s2[0]) > 0);
        assert(s1.contains(s2[0]));
        let k1 = choose|k: int| 0 <= k < s1.len() && s1[k] == s2[0];
        if k1 > 0 {
            assert(report_le(s1[0], s1[k1]));
        }
        assert(report_le(first, s2[0]));
        assert(first.pair == s2[0].pair);
        assert(s2[k2].pair == s2[0].pair);
        if k2 > 0 {
            assert(s2[0].pair != s2[k2].pair);
        }
        assert(s2[0] == first);
        let t1 = s1.remove(0);
        let t2 = s2.remove(0);
        assert(t1.to_multiset() == s1.to_multiset().remove(first));
        assert(t2.to_multiset() == s2.to_multiset().remove(first));
        assert forall|i: int, j: int| 0 <= i < j < t1.len() implies report_le(t1[i], t1[j])
            && t1[i].pair != t1[j].pair by {
            assert(t1[i] == s1[i + 1]);
            assert(t1[j] == s1[j + 1]);
        }
        assert forall|i: int, j: int| 0 <= i < j < t2.len() implies report_le(t2[i], t2[j])
            && t2[i].pair != t2[j].pair by {
            assert(t2[i] == s2[i + 1]);
            assert(t2[j] == s2[j + 1]);
        }
        lemma_sorted_report_unique(t1, t2);
        assert forall|i: int| 0 <= i < s1.len() implies s1[i] == s2[i] by {
            if i > 0 {
                assert(t1[i - 1] == s1[i]);
                assert(t2[i - 1] == s2[i]);
            }
        }
    }
}

} // verus!
