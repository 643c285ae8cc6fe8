use randist::fastlog::{log_query, LogQuery, FRACTION_BITS, TABLE_INTERVALS};

fn reconstruct(q: LogQuery) -> f64 {
    let within = q.index as f64 + q.fraction as f64 / (1u64 << FRACTION_BITS) as f64;
    (0.5 + within / (2 * TABLE_INTERVALS) as f64) * 2f64.powi(q.exponent)
}

fn node(i: usize) -> f64 {
    (TABLE_INTERVALS + i) as f64 / (2 * TABLE_INTERVALS) as f64
}

fn ln_by_table(x: f64) -> f64 {
    let q = log_query(x.to_bits());
    let t = q.fraction as f64 / (1u64 << FRACTION_BITS) as f64;
    let lo = node(q.index).ln();
    let hi = node(q.index + 1).ln();
    q.exponent as f64 * std::f64::consts::LN_2 + lo + t * (hi - lo)
}

#[test]
fn query_of_one() {
    assert_eq!(log_query(1.0f64.to_bits()), LogQuery { exponent: 1, index: 0, fraction: 0 });
}

#[test]
fn query_of_three_quarters() {
    assert_eq!(log_query(0.75f64.to_bits()), LogQuery { exponent: 0, index: 512, fraction: 0 });
}

#[test]
fn query_of_a_tenth() {
    let q = log_query(0.1f64.to_bits());
    assert_eq!(q.exponent, -3);
    assert_eq!(q.index, 614);
    assert_eq!(reconstruct(q), 0.1);
}

#[test]
fn zero_negative_and_subnormal_are_clamped() {
    let smallest = LogQuery { exponent: -1021, index: 0, fraction: 0 };
    assert_eq!(log_query(0.0f64.to_bits()), smallest);
    assert_eq!(log_query((-0.0f64).to_bits()), smallest);
    assert_eq!(log_query((-0.5f64).to_bits()), smallest);
    assert_eq!(log_query(f64::from_bits(1).to_bits()), smallest);
    assert_eq!(log_query(f64::MIN_POSITIVE.to_bits()), smallest);
    assert_eq!(reconstruct(smallest), f64::MIN_POSITIVE);
}

#[test]
fn query_reconstructs_its_input() {
    for k in 1..=10_000u32 {
        let x = k as f64 / 10_000.0;
        let q = log_query(x.to_bits());
        assert!(q.index < TABLE_INTERVALS);
        assert_eq!(reconstruct(q), x);
    }
}

#[test]
fn ln_by_table_within_tolerance() {
    let n = 10_000;
    let (lo, hi) = (1e-6f64, 1.0f64);
    for k in 0..n {
        let x = lo + (hi - lo) * k as f64 / (n - 1) as f64;
        let err = (ln_by_table(x) - x.ln()).abs();
        assert!(err < 1e-3, "x {} error {}", x, err);
    }
    assert!(ln_by_table(0.0).is_finite());
    assert_eq!(ln_by_table(1.0), 0.0);
}
