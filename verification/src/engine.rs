//! The comparison engine: one sequential, fully verified run.
//!
//! `run` is the reference semantics of a whole run: it generates the
//! canonical jobs, drains the work queue scoring every pair, aggregates
//! the outcomes into the score table, derives the live report by range
//! filtering, and sorts everything for the persisted log. A concurrent
//! driver reproduces exactly this result by draining the same queue from
//! several workers and feeding the same inserts to the same table, in
//! whatever order: `lemma_aggregation_order_independent` and
//! `lemma_table_deterministic` say the outcome cannot differ.

use vstd::prelude::*;
use vstd::pervasive::unreached;

use crate::distance::Metric;
use crate::distance::score_matches;
use crate::distance::score_strings;
use crate::pairs::Pair;
use crate::pairs::WorkQueue;
use crate::pairs::canonical_enumeration;
use crate::pairs::generate_jobs;
use crate::pairs::has_pair;
use crate::pairs::pair_in;
use crate::report::distinct_pairs;
use crate::report::sort_records;
use crate::report::sorted_by_report;
use crate::score::Threshold;
use crate::score::in_range;
use crate::score::in_range_exec;
use crate::table::ScoreRecord;
use crate::table::ScoreTable;
use crate::table::has_idx;
use crate::table::table_matches;
use crate::table::table_records;

verus! {

/// A run's configuration: the metric, and the sensitivity range
/// `[lo, hi]` a score must lie in for its pair to be reported live.
#[derive(Clone, Copy, Debug, PartialEq, Eq, Structural)]
pub struct Config {
    pub metric: Metric,
    pub lo: Threshold,
    pub hi: Threshold,
}

impl Config {
    pub open spec fn wf(self) -> bool {
        self.lo.wf() && self.hi.wf()
    }
}

/// Why a run refused to start.
#[derive(Clone, Copy, Debug, PartialEq, Eq, Structural)]
pub enum EngineError {
    /// Fewer than two distinct files were supplied: there is nothing to
    /// compare, and no score table is produced.
    InsufficientInput,
}

/// Everything a finished run produces.
pub struct RunOutput {
    /// Every pair's outcome, one slot per job.
    pub table: ScoreTable,
    /// The live report: the outcomes whose scores lie in the sensitivity
    /// range, in job order, ready to be printed as they would have arrived.
    pub live: Vec<ScoreRecord>,
    /// The persisted report: every outcome, sorted by descending score,
    /// ties broken by ascending pair order.
    pub sorted: Vec<ScoreRecord>,
}

/// The live report may hold `r` only if `r` is the table's outcome for its
/// own job index and its score lies in the sensitivity range.
pub open spec fn live_entry_ok(t: ScoreTable, r: ScoreRecord, cfg: Config) -> bool {
    &&& r.idx < t.size()
    &&& r.pair == t.pairs@[r.idx as int]
    &&& t.slots@[r.idx as int] == Some(r.score)
    &&& in_range(r.score, cfg.lo, cfg.hi)
}

/// Slot `i` holds a score inside the sensitivity range.
pub open spec fn slot_in_range(t: ScoreTable, i: int, cfg: Config) -> bool {
    &&& t.slots@[i] is Some
    &&& in_range(t.slots@[i]->Some_0, cfg.lo, cfg.hi)
}

/// What a successful run guarantees, over the views of the input texts.
pub open spec fn output_matches(out: RunOutput, n: nat, texts: Seq<Seq<char>>, cfg: Config) -> bool {
    &&& out.table.wf()
    &&& out.table.complete()
    &&& canonical_enumeration(out.table.pairs@, n)
    &&& table_matches(out.table, cfg.metric, texts)
    &&& forall|j: int|
        0 <= j < out.live@.len() ==> live_entry_ok(out.table, #[trigger] out.live@[j], cfg)
    &&& forall|i: int|
        0 <= i < out.table.size() && slot_in_range(out.table, i, cfg) ==> has_idx(out.live@, i)
    &&& forall|a: int, b: int|
        0 <= a < b < out.live@.len() ==> out.live@[a].idx < out.live@[b].idx
    &&& out.sorted@.to_multiset() == table_records(out.table).to_multiset()
    &&& sorted_by_report(out.sorted@)
    &&& distinct_pairs(out.sorted@)
}

/// Runs a whole comparison: scores every canonical pair of the given
/// texts, and returns the complete score table, the live report and the
/// sorted persisted report. Fails, before any comparison work, exactly
/// when fewer than two texts are supplied.
pub fn run(texts: &Vec<String>, cfg: Config) -> (r: Result<RunOutput, EngineError>)
    requires
        cfg.wf(),
        texts@.len() * (texts@.len() - 1) / 2 <= usize::MAX,
    ensures
        match r {
            Ok(out) => texts@.len() >= 2 && output_matches(
                out,
                texts@.len() as nat,
                texts.deep_view(),
                cfg,
            ),
            Err(e) => texts@.len() < 2 && e == EngineError::InsufficientInput,
        },
{
    let n = texts.len();
    if n < 2 {
        return Err(EngineError::InsufficientInput);
    }
    let ghost tdv = texts.deep_view();
    let jobs = generate_jobs(n);
    let mut table = ScoreTable::new(&jobs);
    let ghost all_jobs = jobs@;
    let mut queue = WorkQueue::new(jobs);
    proof {
        assert(queue@ == all_jobs.take(queue@.len() as int));
    }
    while queue.len() > 0
        invariant
            n == texts@.len(),
            tdv == texts.deep_view(),
            table.wf(),
            table.size() == all_jobs.len(),
            forall|i: int| 0 <= i < all_jobs.len() ==> (#[trigger] all_jobs[i]).idx == i,
            forall|i: int|
                0 <= i < all_jobs.len() ==> (#[trigger] all_jobs[i]).pair.wf(n as nat),
            forall|i: int|
                0 <= i < all_jobs.len() ==> table.pairs@[i] == (#[trigger] all_jobs[i]).pair,
            queue@.len() <= all_jobs.len(),
            queue@ == all_jobs.take(queue@.len() as int),
            forall|i: int|
                queue@.len() <= i < table.size() ==> {
                    let p = table.pairs@[i];
                    match #[trigger] table.slots@[i] {
                        Some(s) => score_matches(
                            cfg.metric,
                            tdv[p.a as int],
                            tdv[p.b as int],
                            s,
                        ),
                        None => false,
                    }
                },
        decreases queue@.len(),
    {
        let ghost k = queue@.len() as int;
        let job = match queue.pop() {
            Some(j) => j,
            None => unreached(),
        };
        proof {
            assert(job == all_jobs.take(k).last());
            assert(job == all_jobs[k - 1]);
            assert(queue@ =~= all_jobs.take(k - 1));
            assert(job.pair.wf(n as nat));
        }
        let pair = job.pair;
        let score = score_strings(cfg.metric, texts[pair.a].as_str(), texts[pair.b].as_str());
        table.insert(ScoreRecord { idx: job.idx, pair, score });
    }
    proof {
        assert(queue@.len() == 0);
        assert forall|i: int| 0 <= i < table.pairs@.len() implies {
            let p = #[trigger] table.pairs@[i];
            p.wf(n as nat) && p.a < tdv.len() && p.b < tdv.len()
        } by {
            assert(table.pairs@[i] == all_jobs[i].pair);
            assert(all_jobs[i].pair.wf(n as nat));
        }
        assert(table_matches(table, cfg.metric, tdv));
        assert(table.complete());
        assert(canonical_enumeration(table.pairs@, n as nat)) by {
            assert forall|i: int, j: int|
                0 <= i < j < table.pairs@.len() implies crate::pairs::pair_lt(
                table.pairs@[i],
                table.pairs@[j],
            ) by {
                assert(table.pairs@[i] == all_jobs[i].pair);
                assert(table.pairs@[j] == all_jobs[j].pair);
            }
            assert forall|x: usize, y: usize| x < y < n implies #[trigger] pair_in(
                table.pairs@,
                x,
                y,
            ) by {
                assert(has_pair(all_jobs, x, y));
                let i = choose|i: int|
                    0 <= i < all_jobs.len() && (#[trigger] all_jobs[i]).pair == (Pair {
                        a: x,
                        b: y,
                    });
                assert(table.pairs@[i] == (Pair { a: x, b: y }));
            }
        }
    }
    let total = table.len();

    // The live report: walk the finished table in job order and keep the
    // outcomes whose scores lie in the sensitivity range.
    let mut live: Vec<ScoreRecord> = Vec::new();
    let mut i: usize = 0;
    while i < total
        invariant
            cfg.wf(),
            table.wf(),
            table.complete(),
            total == table.size(),
            forall|j: int|
                0 <= j < live@.len() ==> live_entry_ok(table, #[trigger] live@[j], cfg),
            forall|ii: int|
                0 <= ii < i && slot_in_range(table, ii, cfg) ==> has_idx(live@, ii),
            forall|a: int, b: int| 0 <= a < b < live@.len() ==> live@[a].idx < live@[b].idx,
            forall|j: int| 0 <= j < live@.len() ==> (#[trigger] live@[j]).idx < i,
        decreases total - i,
    {
        let sc = match table.get(i) {
            Some(s) => s,
            None => unreached(),
        };
        if in_range_exec(&sc, &cfg.lo, &cfg.hi) {
            let ghost before = live@;
            live.push(ScoreRecord { idx: i, pair: table.pairs[i], score: sc });
            proof {
                assert forall|ii: int|
                    0 <= ii < i + 1 && slot_in_range(table, ii, cfg) implies has_idx(
                    live@,
                    ii,
                ) by {
                    if ii == i {
                        assert(live@[live@.len() - 1].idx == ii);
                    } else {
                        assert(has_idx(before, ii));
                        let j = choose|j: int|
                            0 <= j < before.len() && (#[trigger] before[j]).idx == ii;
                        assert(live@[j].idx == ii);
                    }
                }
            }
        }
        i = i + 1;
    }

    // The persisted report: every outcome, sorted into the report order.
    let mut recs: Vec<ScoreRecord> = Vec::new();
    let mut j: usize = 0;
    while j < total
        invariant
            table.wf(),
            table.complete(),
            total == table.size(),
            recs@.len() == j,
            j <= total,
            forall|k: int| 0 <= k < j ==> recs@[k] == table_records(table)[k],
        decreases total - j,
    {
        let sc = match table.get(j) {
            Some(s) => s,
            None => unreached(),
        };
        recs.push(ScoreRecord { idx: j, pair: table.pairs[j], score: sc });
        j = j + 1;
    }
    proof {
        assert(recs@ =~= table_records(table));
        assert forall|k: int| 0 <= k < recs@.len() implies (#[trigger] recs@[k]).score.wf() by {
            assert(table.slots@[k] is Some);
        }
    }
    let sorted = sort_records(&recs);
    proof {
        assert forall|a: int, b: int|
            0 <= a < b < recs@.len() implies recs@[a].idx != recs@[b].idx && recs@[a].pair
            != recs@[b].pair by {
            assert(recs@[a] == table_records(table)[a]);
            assert(recs@[b] == table_records(table)[b]);
            assert(crate::pairs::pair_lt(table.pairs@[a], table.pairs@[b]));
        }
        lemma_sorted_distinct_pairs(recs@, sorted@);
    }
    Ok(RunOutput { table, live, sorted })
}

/// A canonical enumeration holds exactly the canonical pairs.
proof fn lemma_canonical_membership(pairs: Seq<Pair>, n: nat, p: Pair)
    requires
        canonical_enumeration(pairs, n),
    ensures
        pairs.contains(p) <==> p.wf(n),
{
    if pairs.contains(p) {
        let i = choose|i: int| 0 <= i < pairs.len() && pairs[i] == p;
        assert(pairs[i].wf(n));
    }
    if p.wf(n) {
        assert(pair_in(pairs, p.a, p.b));
        let i = choose|i: int|
            0 <= i < pairs.len() && (#[trigger] pairs[i]) == (Pair { a: p.a, b: p.b });
        assert((Pair { a: p.a, b: p.b }) == p);
        assert(pairs[i] == p);
        assert(pairs.contains(p));
    }
}

/// Runs are deterministic and reproducible: any two outputs that meet the
/// run contract for the same texts and configuration agree completely --
/// the same pairs, the same scores, and the same persisted order. In
/// particular a second run of the same file set, or a run with another
/// worker-pool size, changes nothing.
pub proof fn lemma_run_deterministic(
    o1: RunOutput,
    o2: RunOutput,
    n: nat,
    texts: Seq<Seq<char>>,
    cfg: Config,
)
    requires
        output_matches(o1, n, texts, cfg),
        output_matches(o2, n, texts, cfg),
    ensures
        o1.table.pairs@ =~= o2.table.pairs@,
        o1.table.slots@ =~= o2.table.slots@,
        o1.sorted@ =~= o2.sorted@,
{
    assert forall|p: Pair| o1.table.pairs@.contains(p) <==> o2.table.pairs@.contains(p) by {
        lemma_canonical_membership(o1.table.pairs@, n, p);
        lemma_canonical_membership(o2.table.pairs@, n, p);
    }
    crate::pairs::lemma_strictly_sorted_pairs_unique(o1.table.pairs@, o2.table.pairs@);
    crate::table::lemma_table_deterministic(o1.table, o2.table, cfg.metric, texts);
    assert(table_records(o1.table) =~= table_records(o2.table));
    crate::report::lemma_sorted_report_unique(o1.sorted@, o2.sorted@);
}

/// Records drawn one-per-slot from a table carry pairwise distinct job
/// indices, so a multiset-equal rearrangement of them also repeats no
/// record, and with strictly ordered table pairs no pair either.
proof fn lemma_sorted_distinct_pairs(recs: Seq<ScoreRecord>, sorted: Seq<ScoreRecord>)
    requires
        forall|i: int, j: int| 0 <= i < j < recs.len() ==> recs[i].idx != recs[j].idx,
        forall|i: int, j: int| 0 <= i < j < recs.len() ==> recs[i].pair != recs[j].pair,
        sorted.to_multiset() == recs.to_multiset(),
        forall|k: int| 0 <= k < sorted.len() ==> recs.contains(#[trigger] sorted[k]),
    ensures
        distinct_pairs(sorted),
{
    broadcast use vstd::seq_lib::group_to_multiset_ensures;

    assert(recs.no_duplicates()) by {
        assert forall|i: int, j: int|
            0 <= i < recs.len() && 0 <= j < recs.len() && i != j implies recs[i] != recs[j] by {
            if i < j {
                assert(recs[i].idx != recs[j].idx);
            } else {
                assert(recs[j].idx != recs[i].idx);
            }
        }
    }
    recs.lemma_multiset_has_no_duplicates();
    sorted.lemma_multiset_has_no_duplicates_conv();
    assert forall|a: int, b: int|
        0 <= a < b < sorted.len() implies sorted[a].pair != sorted[b].pair by {
        let ra = sorted[a];
        let rb = sorted[b];
        let ia = choose|k: int| 0 <= k < recs.len() && recs[k] == ra;
        let ib = choose|k: int| 0 <= k < recs.len() && recs[k] == rb;
        if ra.pair == rb.pair {
            assert(ia == ib);
            assert(ra == rb);
            assert(sorted[a] != sorted[b]);
        }
    }
}

} // verus!
