use roundrobin::codec::{from_pairs, to_pairs};
use roundrobin::pairing::{calculate_hash, Match};
use roundrobin::schedule::Schedule;
use roundrobin::search::{best_schedule, factorial, get_valid_schedules, total_iterations};
use roundrobin::series::Series;

fn series(ms: [(usize, usize); 3]) -> Series {
    Series::from_matches(vec![
        Match(ms[0].0, ms[0].1),
        Match(ms[1].0, ms[1].1),
        Match(ms[2].0, ms[2].1),
    ])
    .expect("perfect pairing expected")
}

/// A schedule whose adjacent rounds never share an alliance across the
/// last/first match boundary.
fn clean_schedule() -> Schedule {
    let rounds = vec![
        series([(3, 4), (5, 6), (1, 2)]),
        series([(4, 6), (1, 3), (2, 5)]),
        series([(1, 4), (2, 6), (3, 5)]),
        series([(2, 4), (1, 5), (3, 6)]),
        series([(4, 5), (1, 6), (2, 3)]),
    ];
    Schedule::from_series(rounds).expect("coverage holds")
}

#[test]
fn match_equality_is_order_independent() {
    assert!(Match(1, 2) == Match(2, 1));
    assert!(Match(1, 2) == Match(1, 2));
    assert!(Match(1, 2) != Match(1, 3));
}

#[test]
fn match_hash_is_order_independent() {
    assert_eq!(calculate_hash(&Match(2, 5)), calculate_hash(&Match(5, 2)));
    assert_eq!(calculate_hash(&Match(1, 6)), calculate_hash(&Match(6, 1)));
}

#[test]
fn coverage_matrix_of_one_series() {
    let s = series([(1, 2), (3, 4), (5, 6)]);
    for i in 0..6 {
        for j in 0..6 {
            let expected = match (i, j) {
                (0, 1) | (1, 0) | (2, 3) | (3, 2) | (4, 5) | (5, 4) => 1,
                _ => 0,
            };
            assert_eq!(s.plays.get(i, j), expected);
        }
    }
}

#[test]
fn coverage_rows_sum_to_one_for_every_generated_series() {
    let universe = Series::get_permutations();
    for s in &universe {
        for i in 0..6 {
            let mut off_diag: usize = 0;
            for j in 0..6 {
                if i != j {
                    off_diag += s.plays.get(i, j);
                }
            }
            assert_eq!(off_diag, 1);
        }
    }
}

#[test]
fn universe_has_ninety_series_and_is_order_stable() {
    let a = Series::get_permutations();
    let b = Series::get_permutations();
    assert_eq!(a.len(), 90);
    assert_eq!(a.len(), b.len());
    for (x, y) in a.iter().zip(b.iter()) {
        assert_eq!(x.matches.len(), y.matches.len());
        for (mx, my) in x.matches.iter().zip(y.matches.iter()) {
            assert_eq!(mx.0, my.0);
            assert_eq!(mx.1, my.1);
        }
    }
}

#[test]
fn full_coverage_tuple_validates() {
    let s = clean_schedule();
    assert_eq!(s.series.len(), 5);
}

#[test]
fn tuple_missing_a_pair_fails_validation() {
    // Repeating the first round drops the pairs of the round it replaces.
    let rounds = vec![
        series([(3, 4), (5, 6), (1, 2)]),
        series([(3, 4), (5, 6), (1, 2)]),
        series([(1, 4), (2, 6), (3, 5)]),
        series([(2, 4), (1, 5), (3, 6)]),
        series([(4, 5), (1, 6), (2, 3)]),
    ];
    assert!(Schedule::from_series(rounds).is_none());
}

#[test]
fn back_to_back_violation_is_rejected() {
    // Round 0 ends on a match with alliance 3; round 1 opens with one.
    let rounds = vec![
        series([(1, 2), (5, 6), (3, 4)]),
        series([(3, 5), (1, 4), (2, 6)]),
        series([(4, 6), (1, 3), (2, 5)]),
        series([(2, 4), (1, 5), (3, 6)]),
        series([(4, 5), (1, 6), (2, 3)]),
    ];
    let s = Schedule::from_series(rounds).expect("coverage holds");
    assert!(!s.check_back_to_back());
}

#[test]
fn back_to_back_clean_boundaries_pass() {
    assert!(clean_schedule().check_back_to_back());
}

#[test]
fn avg_min_delta_exact_value() {
    // Per alliance the minimal adjacent-round gap is 2,2,3,3,2,2; the sum
    // is 14 (the mean over the six alliances is 14/6).
    assert_eq!(clean_schedule().avg_min_delta(), 14);
}

#[test]
fn max_field_sep_exact_value() {
    // Per-alliance field sums are 3, -1, 3, 1, 1, -5; the maximum is 3
    // (the worst mean bias is 3/5).
    assert_eq!(clean_schedule().max_field_sep(), 3);
}

#[test]
fn factorial_exact_values() {
    assert_eq!(factorial(0), 1);
    assert_eq!(factorial(1), 1);
    assert_eq!(factorial(5), 120);
    assert_eq!(factorial(20), 2432902008176640000);
}

#[test]
fn total_iterations_exact_values() {
    assert_eq!(total_iterations(5), 120);
    assert_eq!(total_iterations(3), 0);
    assert_eq!(total_iterations(90), 5273912160);
}

#[test]
fn round_trip_preserves_matches_matrices_and_metrics() {
    let a = clean_schedule();
    let b = {
        let rounds = vec![
            series([(1, 2), (5, 6), (3, 4)]),
            series([(3, 5), (1, 4), (2, 6)]),
            series([(4, 6), (1, 3), (2, 5)]),
            series([(2, 4), (1, 5), (3, 6)]),
            series([(4, 5), (1, 6), (2, 3)]),
        ];
        Schedule::from_series(rounds).expect("coverage holds")
    };
    let originals = vec![a, b];
    let data = to_pairs(&originals);
    let reloaded = from_pairs(&data).expect("persisted records decode");
    assert_eq!(reloaded.len(), originals.len());
    for (x, y) in originals.iter().zip(reloaded.iter()) {
        for (sx, sy) in x.series.iter().zip(y.series.iter()) {
            for (mx, my) in sx.matches.iter().zip(sy.matches.iter()) {
                assert_eq!(mx.0, my.0);
                assert_eq!(mx.1, my.1);
            }
            for i in 0..6 {
                for j in 0..6 {
                    assert_eq!(sx.plays.get(i, j), sy.plays.get(i, j));
                }
            }
        }
        assert_eq!(x.avg_min_delta(), y.avg_min_delta());
        assert_eq!(x.max_field_sep(), y.max_field_sep());
    }
}

#[test]
fn damaged_records_fail_to_load() {
    let data = to_pairs(&vec![clean_schedule()]);

    let mut short = data.clone();
    short[0].pop();
    assert!(from_pairs(&short).is_none());

    let mut degenerate = data.clone();
    degenerate[0][0][0] = (1, 1);
    assert!(from_pairs(&degenerate).is_none());

    let mut doubled = data.clone();
    doubled[0][1] = doubled[0][0].clone();
    assert!(from_pairs(&doubled).is_none());
}

#[test]
fn search_is_deterministic_under_a_cap() {
    let a = get_valid_schedules(Some(3000));
    let b = get_valid_schedules(Some(3000));
    assert_eq!(a.len(), b.len());
    for (x, y) in a.iter().zip(b.iter()) {
        for (sx, sy) in x.series.iter().zip(y.series.iter()) {
            for (mx, my) in sx.matches.iter().zip(sy.matches.iter()) {
                assert_eq!(mx.0, my.0);
                assert_eq!(mx.1, my.1);
            }
        }
    }
    assert_eq!(best_schedule(&a), best_schedule(&b));
}

#[test]
fn a_valid_schedule_exists_and_best_is_deterministic() {
    // A one-factorization of the six alliances exists, so the unbounded
    // search space contains at least one valid schedule; the selection
    // over any fixed survivor collection is deterministic.
    let survivors = vec![clean_schedule(), {
        let rounds = vec![
            series([(1, 2), (5, 6), (3, 4)]),
            series([(3, 5), (1, 4), (2, 6)]),
            series([(4, 6), (1, 3), (2, 5)]),
            series([(2, 4), (1, 5), (3, 6)]),
            series([(4, 5), (1, 6), (2, 3)]),
        ];
        Schedule::from_series(rounds).expect("coverage holds")
    }];
    let first = best_schedule(&survivors).expect("non-empty collection");
    let second = best_schedule(&survivors).expect("non-empty collection");
    assert_eq!(first, second);
    let best = &survivors[first];
    for s in &survivors {
        assert!(s.avg_min_delta() <= best.avg_min_delta());
    }
}

#[test]
fn zero_cap_yields_empty_survivors_and_no_best() {
    let survivors = get_valid_schedules(Some(0));
    assert_eq!(survivors.len(), 0);
    assert_eq!(best_schedule(&survivors), None);
}

#[test]
fn degenerate_match_is_rejected_by_series_construction() {
    assert!(Series::from_matches(vec![Match(1, 1), Match(2, 3), Match(4, 5)]).is_none());
    assert!(Series::from_matches(vec![Match(1, 2), Match(3, 4), Match(5, 7)]).is_none());
    assert!(Series::from_matches(vec![Match(1, 2), Match(3, 4), Match(5, 1)]).is_none());
    assert!(Series::from_matches(vec![Match(1, 2), Match(3, 4)]).is_none());
}
