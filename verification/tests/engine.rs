//! Behavior of the partial subsequence warping search.

use dash_fp::{partial_dtw, score_le_exec, window_score, Fingerprint, Score, SCALE};

fn fp(vals: &[u64]) -> Fingerprint {
    Fingerprint::from_values(vals.to_vec()).unwrap()
}

/// Brute-force minimum over the engine's search space, folding the windows
/// in the given order.
fn search_min(q: &Fingerprint, t: &Fingerprint, reversed: bool) -> Option<u64> {
    let n = q.len();
    let m = t.len();
    if m < n {
        return None;
    }
    let mut windows: Vec<(usize, usize)> = Vec::new();
    for i0 in 0..=(m - n) {
        let lim = (m - i0).min(2 * n);
        for j in 1..lim {
            windows.push((i0, j));
        }
    }
    if reversed {
        windows.reverse();
    }
    let mut best: Option<u64> = None;
    for (i0, j) in windows {
        if let Some(c) = window_score(q, t, i0, j) {
            best = Some(match best {
                None => c,
                Some(b) => b.min(c),
            });
        }
    }
    best
}

#[test]
fn infinite_when_template_shorter() {
    let q = fp(&[100, 200, 300]);
    let t = fp(&[100, 200]);
    assert_eq!(partial_dtw(&q, &t), Score::Infinite);
}

#[test]
fn finite_when_template_longer() {
    let q = fp(&[100, 200]);
    let t = fp(&[900, 100, 200, 700]);
    match partial_dtw(&q, &t) {
        Score::Finite { qlen, .. } => assert_eq!(qlen, 2),
        Score::Infinite => panic!("expected a finite score"),
    }
}

#[test]
fn infinite_on_equal_singletons() {
    // With one query value and one template value no window fits the
    // search space, although the template is not shorter than the query.
    let q = fp(&[500_000]);
    let t = fp(&[500_000]);
    assert_eq!(partial_dtw(&q, &t), Score::Infinite);
}

#[test]
fn contained_query_scores_zero() {
    // The query appears at offset 1 with one template value to spare.
    let q = fp(&[200_000, 300_000, 400_000]);
    let t = fp(&[900_000, 200_000, 300_000, 400_000, 50_000]);
    assert_eq!(partial_dtw(&q, &t), Score::Finite { cost: 0, qlen: 3 });
}

#[test]
fn suffix_match_stays_positive() {
    // The query appears only as the template's suffix; the search never
    // reaches a window that touches the template's end, so the score stays
    // above zero.
    let q = fp(&[200_000, 900_000]);
    let t = fp(&[500_000, 200_000, 900_000]);
    match partial_dtw(&q, &t) {
        Score::Finite { cost, qlen } => {
            assert_eq!(qlen, 2);
            assert!(cost > 0);
        },
        Score::Infinite => panic!("expected a finite score"),
    }
}

#[test]
fn exact_cost_of_a_known_grid() {
    // q aligned against [500000, 600000]: the best path pairs the first two
    // values exactly and holds the last query value on 600000.
    let q = fp(&[500_000, 600_000, 700_000]);
    let t = fp(&[500_000, 600_000, 700_000, 100_000]);
    // Window (0, 3) contains the query exactly but i0 + n == 3 < m == 4,
    // so the zero window is searched.
    assert_eq!(partial_dtw(&q, &t), Score::Finite { cost: 0, qlen: 3 });
    let t2 = fp(&[500_000, 600_000, 700_000]);
    // Here only windows of lengths 1 and 2 are searched: best is
    // |700000 - 600000| = 100000.
    assert_eq!(partial_dtw(&q, &t2), Score::Finite { cost: 100_000, qlen: 3 });
}

#[test]
fn reduction_order_does_not_change_the_result() {
    let q = fp(&[120_000, 340_000, 560_000]);
    let t = fp(&[900_000, 100_000, 350_000, 560_000, 780_000, 120_000, 0]);
    let forward = search_min(&q, &t, false);
    let backward = search_min(&q, &t, true);
    assert_eq!(forward, backward);
    match partial_dtw(&q, &t) {
        Score::Finite { cost, qlen } => {
            assert_eq!(qlen, 3);
            assert_eq!(Some(cost), forward);
        },
        Score::Infinite => {
            assert_eq!(forward, None);
        },
    }
}

#[test]
fn extension_with_final_value_keeps_the_floor() {
    let q = fp(&[100_000, 700_000, 400_000]);
    let t = fp(&[300_000, 200_000, 650_000, 500_000]);
    let n = q.len();
    let m = t.len();
    // Least cost over every sub-range of the original template under the
    // search's own length bound, windows touching the end included.
    let mut floor: Option<u64> = None;
    for i0 in 0..m {
        let lim = (m - i0).min(2 * n - 1);
        for j in 1..=lim {
            if let Some(c) = window_score(&q, &t, i0, j) {
                floor = Some(match floor {
                    None => c,
                    Some(b) => b.min(c),
                });
            }
        }
    }
    let floor = floor.expect("the original template has alignable sub-ranges");
    // Extend the template with copies of its final value.
    let mut vals: Vec<u64> = vec![300_000, 200_000, 650_000, 500_000];
    for _ in 0..4 {
        vals.push(500_000);
    }
    let extended = fp(&vals);
    match partial_dtw(&q, &extended) {
        Score::Finite { cost, .. } => {
            assert!(cost >= floor);
        },
        Score::Infinite => panic!("expected a finite score"),
    }
    // Extending only adds windows, so the score cannot rise either.
    match (partial_dtw(&q, &extended), partial_dtw(&q, &t)) {
        (Score::Finite { cost: ce, .. }, Score::Finite { cost: co, .. }) => {
            assert!(ce <= co);
        },
        _ => panic!("expected finite scores"),
    }
}

#[test]
fn fingerprint_values_stay_in_the_unit_interval() {
    // The logistic transform keeps every finite relative change inside
    // (0, 1); quantized, inside [0, SCALE] — so the fingerprint
    // constructor accepts whatever the transform produces.
    for d in [-1.0e9f64, -42.0, -1.0, 0.0, 1.0, 42.0, 1.0e9] {
        let v = 1.0 / (1.0 + (-d).exp());
        assert!((0.0..=1.0).contains(&v));
        let q = (v * SCALE as f64).round() as u64;
        assert!(q <= SCALE);
        assert!(Fingerprint::from_values(vec![q]).is_ok());
    }
}

#[test]
fn scores_compare_as_exact_rationals() {
    // 1/2 versus 2/3: the cross products decide, with no rounding.
    let half = Score::Finite { cost: 1, qlen: 2 };
    let two_thirds = Score::Finite { cost: 2, qlen: 3 };
    assert!(score_le_exec(&half, &two_thirds));
    assert!(!score_le_exec(&two_thirds, &half));
    // Every finite score lies below the infinite one.
    assert!(score_le_exec(&half, &Score::Infinite));
    assert!(!score_le_exec(&Score::Infinite, &half));
    assert!(score_le_exec(&Score::Infinite, &Score::Infinite));
}
