use simcheck::Config;
use simcheck::Metric;
use simcheck::Threshold;

#[test]
fn check_opts() {
    // The run configuration assembled from the command-line surface keeps
    // its invariants: positive threshold denominators, the unbounded
    // default upper bound, and the metric chosen once per run.
    let lo = Threshold::new(500_000, 1_000_000);
    let hi = Threshold::new(2_000_000, 1_000_000);
    assert!(lo.den >= 1);
    assert!(hi.den >= 1);
    assert!(hi.num > hi.den);

    let default_cfg = Config { metric: Metric::Levenshtein, lo, hi };
    assert_eq!(default_cfg.metric, Metric::Levenshtein);

    let damerau = true;
    let metric = if damerau { Metric::Damerau } else { Metric::Levenshtein };
    let damerau_cfg = Config { metric, ..default_cfg };
    assert_eq!(damerau_cfg.metric, Metric::Damerau);
    assert_eq!(damerau_cfg.lo, lo);
    assert_eq!(damerau_cfg.hi, hi);
}
