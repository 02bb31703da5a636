//! Behavior of the fingerprint builders.

use dash_fp::{
    sat_add, unit_deltas, unit_magnitude, BuildError, Delta, Fingerprint, NetworkAccumulator,
    MAX_LEN, SCALE,
};

/// The caller-side normalization: logistic of the relative change, in
/// fixed point.  The division-by-zero edge is mapped deliberately: growth
/// from nothing saturates to 1, no traffic at all counts as no change.
fn normalize(d: &Delta) -> u64 {
    let v = match d {
        Delta::Zero => 0.5,
        Delta::Ratio { cur, prev } => {
            if *prev == 0 {
                if *cur == 0 {
                    0.5
                } else {
                    1.0
                }
            } else {
                let r = (*cur as f64 - *prev as f64) / (*prev as f64);
                1.0 / (1.0 + (-r).exp())
            }
        },
    };
    (v * SCALE as f64).round() as u64
}

#[test]
fn network_scenario_three_segments() {
    // Three one-tick segments, threshold zero, rate deltas
    // [0, 0, 100, 100, 200, 200]: segment sums come out as 100, 100, 200.
    let mut acc = NetworkAccumulator::new(3, 1, 0).unwrap();
    let rates = [0i64, 0, 100, 100, 200, 200];
    let mut done = false;
    for r in rates {
        done = acc.feed(r);
    }
    assert!(done);
    assert!(acc.is_done());
    assert_eq!(acc.segments_sealed(), 3);
    let deltas = acc.deltas();
    assert_eq!(
        deltas,
        vec![
            Delta::Zero,
            Delta::Ratio { cur: 100, prev: 100 },
            Delta::Ratio { cur: 200, prev: 100 },
        ]
    );
    let values: Vec<u64> = deltas.iter().map(normalize).collect();
    assert_eq!(values.len(), 3);
    assert_eq!(values[0], SCALE / 2);
    assert_eq!(values[1], SCALE / 2);
    // Relative growth 100 -> 200 is d = 1.0; logistic(1.0) is about 0.731.
    assert_eq!(values[2], 731_059);
    assert!(Fingerprint::from_values(values).is_ok());
}

#[test]
fn network_threshold_gates_samples() {
    // Threshold 100: the two sub-threshold samples neither enter a sum nor
    // advance the timer.
    let mut acc = NetworkAccumulator::new(2, 1, 100).unwrap();
    for r in [50i64, 99, 150, 150, 150] {
        acc.feed(r);
    }
    assert!(acc.is_done());
    let deltas = acc.deltas();
    assert_eq!(deltas, vec![Delta::Zero, Delta::Ratio { cur: 150, prev: 150 }]);
}

#[test]
fn sub_threshold_sample_freezes_the_timer() {
    // Two-sample segments, threshold 100.  The sub-threshold sample in the
    // middle of the first segment must not advance the timer, so the first
    // segment still takes two counted samples and sums to 300.
    let mut acc = NetworkAccumulator::new(2, 2, 100).unwrap();
    for r in [150i64, 50, 150, 150, 150, 150] {
        acc.feed(r);
    }
    assert!(acc.is_done());
    assert_eq!(
        acc.deltas(),
        vec![Delta::Zero, Delta::Ratio { cur: 300, prev: 300 }]
    );
}

#[test]
fn network_ignores_samples_after_done() {
    let mut acc = NetworkAccumulator::new(1, 1, 0).unwrap();
    for r in [10i64, 10] {
        acc.feed(r);
    }
    assert!(acc.is_done());
    assert_eq!(acc.segments_sealed(), 1);
    assert!(acc.feed(1_000));
    assert_eq!(acc.segments_sealed(), 1);
    assert_eq!(acc.deltas(), vec![Delta::Zero]);
}

#[test]
fn network_configuration_is_validated() {
    assert_eq!(
        NetworkAccumulator::new(0, 1, 0).unwrap_err(),
        BuildError::InvalidSampleCount
    );
    assert_eq!(
        NetworkAccumulator::new(MAX_LEN + 1, 1, 0).unwrap_err(),
        BuildError::TooLong
    );
    assert_eq!(
        NetworkAccumulator::new(3, 0, 0).unwrap_err(),
        BuildError::InvalidSegmentLength
    );
    assert_eq!(
        NetworkAccumulator::new(3, 1, -1).unwrap_err(),
        BuildError::InvalidEpsilon
    );
    assert!(NetworkAccumulator::new(1, 1, 0).is_ok());
}

#[test]
fn unit_magnitude_combines_parallel_streams() {
    assert_eq!(unit_magnitude(Some(10), Some(32)), Some(42));
    assert_eq!(unit_magnitude(Some(u64::MAX), Some(1)), Some(u64::MAX));
    // The trace ends as soon as either parallel stream runs out of units.
    assert_eq!(unit_magnitude(Some(10), None), None);
    assert_eq!(unit_magnitude(None, Some(32)), None);
    assert_eq!(unit_magnitude(None, None), None);
}

#[test]
fn unit_deltas_reject_an_empty_trace() {
    let units: Vec<u64> = vec![];
    assert_eq!(unit_deltas(&units).unwrap_err(), BuildError::NoAlignableUnits);
}

#[test]
fn unit_deltas_pair_consecutive_units() {
    let units: Vec<u64> = vec![100, 150, 75];
    let d = unit_deltas(&units).unwrap();
    assert_eq!(
        d,
        vec![
            Delta::Ratio { cur: 150, prev: 100 },
            Delta::Ratio { cur: 75, prev: 150 },
        ]
    );
    // A single unit yields no relative change at all.
    let single: Vec<u64> = vec![100];
    assert_eq!(unit_deltas(&single).unwrap(), vec![]);
}

#[test]
fn division_by_zero_prev_is_left_to_the_caller() {
    let units: Vec<u64> = vec![0, 100];
    let d = unit_deltas(&units).unwrap();
    assert_eq!(d, vec![Delta::Ratio { cur: 100, prev: 0 }]);
    // The documented policy: growth from nothing saturates to the top of
    // the unit interval.
    assert_eq!(normalize(&d[0]), SCALE);
    assert_eq!(normalize(&Delta::Ratio { cur: 0, prev: 0 }), SCALE / 2);
}

#[test]
fn saturating_addition_clamps() {
    assert_eq!(sat_add(1, 2), 3);
    assert_eq!(sat_add(u64::MAX, 0), u64::MAX);
    assert_eq!(sat_add(u64::MAX - 1, 5), u64::MAX);
}

#[test]
fn fingerprint_constructor_validates() {
    assert_eq!(
        Fingerprint::from_values(vec![]).unwrap_err(),
        BuildError::Empty
    );
    assert_eq!(
        Fingerprint::from_values(vec![SCALE + 1]).unwrap_err(),
        BuildError::ValueOutOfRange
    );
    let f = Fingerprint::from_values(vec![0, SCALE / 2, SCALE]).unwrap();
    assert_eq!(f.len(), 3);
    assert_eq!(f.values(), &vec![0, SCALE / 2, SCALE]);
}
