use simcheck::Config;
use simcheck::EngineError;
use simcheck::Metric;
use simcheck::Threshold;
use simcheck::engine::run;
use simcheck::pairs::Pair;
use simcheck::pairs::WorkQueue;
use simcheck::pairs::generate_jobs;
use simcheck::table::ScoreRecord;
use simcheck::table::ScoreTable;

fn config(lo_micros: u64, hi_micros: u64, metric: Metric) -> Config {
    Config {
        metric,
        lo: Threshold::new(lo_micros, 1_000_000),
        hi: Threshold::new(hi_micros, 1_000_000),
    }
}

fn texts(items: &[&str]) -> Vec<String> {
    items.iter().map(|s| s.to_string()).collect()
}

#[test]
fn no_files_is_a_configuration_error() {
    let r = run(&texts(&[]), config(500_000, 2_000_000, Metric::Levenshtein));
    assert_eq!(r.err(), Some(EngineError::InsufficientInput));
}

#[test]
fn one_file_is_a_configuration_error() {
    let r = run(&texts(&["alone"]), config(500_000, 2_000_000, Metric::Levenshtein));
    assert_eq!(r.err(), Some(EngineError::InsufficientInput));
}

#[test]
fn two_identical_files_report_one() {
    let out = run(&texts(&["same", "same"]), config(500_000, 2_000_000, Metric::Levenshtein))
        .ok()
        .unwrap();
    assert_eq!(out.table.pairs.len(), 1);
    assert_eq!(out.live.len(), 1);
    assert_eq!(out.live[0].pair, Pair { a: 0, b: 1 });
    assert_eq!(out.live[0].score.dist, 0);
    assert_eq!(out.live[0].score.len, 4);
}

#[test]
fn hello_goodbye_scenario() {
    // A and B are identical; C shares only its tail with them.
    let input = texts(&["hello world", "hello world", "goodbye world"]);
    let out = run(&input, config(500_000, 2_000_000, Metric::Levenshtein)).ok().unwrap();

    // all three pairs are scored
    assert_eq!(out.table.pairs.len(), 3);
    for slot in &out.table.slots {
        assert!(slot.is_some());
    }

    // (A, B) scores 1.0; the cross pairs score 6/13, below the 0.5 bound
    let ab = out.table.slots[0].unwrap();
    assert_eq!(ab.dist, 0);
    assert_eq!(ab.len, 11);
    let ac = out.table.slots[1].unwrap();
    assert_eq!(ac.dist, 7);
    assert_eq!(ac.len, 13);
    let bc = out.table.slots[2].unwrap();
    assert_eq!(bc.dist, 7);
    assert_eq!(bc.len, 13);

    // only (A, B) is reported live
    assert_eq!(out.live.len(), 1);
    assert_eq!(out.live[0].pair, Pair { a: 0, b: 1 });

    // the log holds all three pairs, (A, B) first, ties in pair order
    assert_eq!(out.sorted.len(), 3);
    assert_eq!(out.sorted[0].pair, Pair { a: 0, b: 1 });
    assert_eq!(out.sorted[1].pair, Pair { a: 0, b: 2 });
    assert_eq!(out.sorted[2].pair, Pair { a: 1, b: 2 });
}

#[test]
fn twenty_files_make_190_pairs() {
    let mut input: Vec<String> = Vec::new();
    for i in 0..20 {
        input.push("x".repeat(i + 1));
    }
    let out = run(&input, config(0, 2_000_000, Metric::Levenshtein)).ok().unwrap();
    assert_eq!(out.table.pairs.len(), 190);
    assert_eq!(out.sorted.len(), 190);
    // no pair is scored twice, and every pair is canonical
    for (i, p) in out.table.pairs.iter().enumerate() {
        assert!(p.a < p.b && p.b < 20);
        for q in &out.table.pairs[i + 1..] {
            assert!(p != q);
        }
    }
    // with the 0 lower bound, every pair is live
    assert_eq!(out.live.len(), 190);
}

#[test]
fn repeated_runs_agree() {
    let input = texts(&["alpha beta", "alpha gamma", "delta", "alpha beta"]);
    let cfg = config(300_000, 2_000_000, Metric::Levenshtein);
    let out1 = run(&input, cfg).ok().unwrap();
    let out2 = run(&input, cfg).ok().unwrap();
    assert_eq!(out1.table.pairs, out2.table.pairs);
    assert_eq!(out1.table.slots, out2.table.slots);
    assert_eq!(out1.live, out2.live);
    assert_eq!(out1.sorted, out2.sorted);
}

#[test]
fn insertion_order_does_not_change_the_table() {
    // the same outcomes, aggregated in job order and in reverse order
    let jobs = generate_jobs(4);
    let mut forward = ScoreTable::new(&jobs);
    let mut backward = ScoreTable::new(&jobs);
    let mut records: Vec<ScoreRecord> = Vec::new();
    for job in &jobs {
        records.push(ScoreRecord {
            idx: job.idx,
            pair: job.pair,
            score: simcheck::Score { dist: job.pair.b - job.pair.a, len: 5 },
        });
    }
    for rec in &records {
        forward.insert(*rec);
    }
    for rec in records.iter().rev() {
        backward.insert(*rec);
    }
    assert_eq!(forward.pairs, backward.pairs);
    assert_eq!(forward.slots, backward.slots);
}

#[test]
fn log_is_sorted_by_descending_score() {
    let input = texts(&["aaaa", "aaab", "abcd", "aaaa", "zzzz"]);
    let out = run(&input, config(0, 2_000_000, Metric::Levenshtein)).ok().unwrap();
    for w in out.sorted.windows(2) {
        let (s1, s2) = (w[0].score, w[1].score);
        // descending value, compared exactly by cross-multiplication
        let v1 = (s1.len - s1.dist) as u128 * s2.len as u128;
        let v2 = (s2.len - s2.dist) as u128 * s1.len as u128;
        assert!(v1 >= v2);
        if v1 == v2 {
            // ties fall back to ascending pair order
            let (p1, p2) = (w[0].pair, w[1].pair);
            assert!(p1.a < p2.a || (p1.a == p2.a && p1.b < p2.b));
        }
    }
}

#[test]
fn queue_hands_out_each_job_once() {
    let jobs = generate_jobs(3);
    let mut queue = WorkQueue::new(jobs.clone());
    let mut seen: Vec<usize> = Vec::new();
    while let Some(job) = queue.pop() {
        assert!(!seen.contains(&job.idx));
        seen.push(job.idx);
    }
    assert_eq!(seen.len(), jobs.len());
    assert!(queue.pop().is_none());
    assert!(queue.pop().is_none());
}
