use simcheck::Metric;
use simcheck::Score;
use simcheck::Threshold;
use simcheck::score::in_range_exec;
use simcheck::score::score_le_exec;
use simcheck::distance::score_strings;

#[test]
fn identical_texts_score_one() {
    let s = score_strings(Metric::Levenshtein, "abc", "abc");
    assert_eq!(s.dist, 0);
    assert_eq!(s.len, 3);
    let d = score_strings(Metric::Damerau, "abc", "abc");
    assert_eq!(d.dist, 0);
    assert_eq!(d.len, 3);
}

#[test]
fn empty_texts_score_one() {
    let s = score_strings(Metric::Levenshtein, "", "");
    assert_eq!(s.dist, 0);
    assert_eq!(s.len, 1);
}

#[test]
fn kitten_sitting_distance() {
    // three edits over seven characters
    let s = score_strings(Metric::Levenshtein, "kitten", "sitting");
    assert_eq!(s.dist, 3);
    assert_eq!(s.len, 7);
}

#[test]
fn scoring_is_symmetric() {
    for metric in [Metric::Levenshtein, Metric::Damerau] {
        let ab = score_strings(metric, "martha", "marhta");
        let ba = score_strings(metric, "marhta", "martha");
        assert_eq!(ab, ba);
    }
}

#[test]
fn transpositions_tell_the_metrics_apart() {
    // adjacent swap: one edit for Damerau-Levenshtein, two for Levenshtein
    let lev = score_strings(Metric::Levenshtein, "martha", "marhta");
    assert_eq!(lev.dist, 2);
    assert_eq!(lev.len, 6);
    let dam = score_strings(Metric::Damerau, "martha", "marhta");
    assert_eq!(dam.dist, 1);
    assert_eq!(dam.len, 6);
}

#[test]
fn multibyte_texts_count_characters() {
    // eddie compares characters, not bytes
    let s = score_strings(Metric::Levenshtein, "もしもし", "もし");
    assert_eq!(s.dist, 2);
    assert_eq!(s.len, 4);
}

#[test]
fn equal_values_compare_equal() {
    // 1/2 and 2/4 are the same value in different representations
    let half_of_two = Score { dist: 1, len: 2 };
    let half_of_four = Score { dist: 2, len: 4 };
    assert!(score_le_exec(&half_of_two, &half_of_four));
    assert!(score_le_exec(&half_of_four, &half_of_two));
}

#[test]
fn smaller_value_compares_below() {
    let third = Score { dist: 2, len: 3 };
    let full = Score { dist: 0, len: 3 };
    assert!(score_le_exec(&third, &full));
    assert!(!score_le_exec(&full, &third));
}

#[test]
fn range_includes_both_bounds() {
    let lo = Threshold::new(500_000, 1_000_000);
    let hi = Threshold::new(750_000, 1_000_000);
    let at_lo = Score { dist: 1, len: 2 };
    let at_hi = Score { dist: 1, len: 4 };
    let below = Score { dist: 51, len: 100 };
    let above = Score { dist: 24, len: 100 };
    assert!(in_range_exec(&at_lo, &lo, &hi));
    assert!(in_range_exec(&at_hi, &lo, &hi));
    assert!(!in_range_exec(&below, &lo, &hi));
    assert!(!in_range_exec(&above, &lo, &hi));
}

#[test]
fn unbounded_upper_threshold_excludes_nothing() {
    // the default upper bound, a value of 2, lies above every score
    let lo = Threshold::new(0, 1_000_000);
    let hi = Threshold::new(2_000_000, 1_000_000);
    let full = Score { dist: 0, len: 7 };
    let empty = Score { dist: 7, len: 7 };
    assert!(in_range_exec(&full, &lo, &hi));
    assert!(in_range_exec(&empty, &lo, &hi));
}
