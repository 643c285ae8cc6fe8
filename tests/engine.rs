use randist::Rng;

const SEED_42_TRIPLE: [u64; 3] = [9039304369631583587, 8647191391818483560, 10334312345110439241];

#[test]
fn seed_42_first_three_draws() {
    let mut rng = Rng::new_seed(42);
    assert_eq!(rng.next(), SEED_42_TRIPLE[0]);
    assert_eq!(rng.next(), SEED_42_TRIPLE[1]);
    assert_eq!(rng.next(), SEED_42_TRIPLE[2]);
    let uniforms: Vec<f64> = SEED_42_TRIPLE.iter().map(|&x| x as f64 / u64::MAX as f64).collect();
    assert!((uniforms[0] - 0.4900216717656138).abs() < 1e-15);
    assert!((uniforms[1] - 0.46876518464537764).abs() < 1e-15);
    assert!((uniforms[2] - 0.5602241947856254).abs() < 1e-15);
}

#[test]
fn seed_42_restart_reproduces_triple() {
    let mut rng = Rng::new_seed(42);
    rng.draws(17);
    rng.restart();
    assert_eq!(rng.state(), 42);
    assert_eq!(rng.draws(3), SEED_42_TRIPLE.to_vec());
}

#[test]
fn same_seed_same_million_draws() {
    for seed in [0u64, 1, 42, u64::MAX] {
        let mut a = Rng::new_seed(seed);
        let mut b = Rng::new_seed(seed);
        for _ in 0..1_000_000 {
            assert_eq!(a.next(), b.next());
        }
    }
}

#[test]
fn draws_match_repeated_next() {
    let mut a = Rng::new_seed(7);
    let mut b = Rng::new_seed(7);
    let batch = a.draws(100);
    assert_eq!(batch.len(), 100);
    for x in batch {
        assert_eq!(x, b.next());
    }
    assert_eq!(a.state(), b.state());
    assert!(a.draws(0).is_empty());
}

#[test]
fn restart_twice_gives_same_sequence() {
    let mut rng = Rng::new_seed(123456789);
    rng.next();
    rng.restart();
    let first = rng.draws(1000);
    rng.restart();
    let second = rng.draws(1000);
    assert_eq!(first, second);
    assert_eq!(rng.seed(), 123456789);
}

#[test]
fn set_seed_acts_as_fresh_engine() {
    let mut rng = Rng::new_seed(1);
    rng.draws(5);
    rng.set_seed(42);
    assert_eq!(rng.seed(), 42);
    assert_eq!(rng.state(), 42);
    assert_eq!(rng.draws(3), SEED_42_TRIPLE.to_vec());
}

#[test]
fn reseed_clears_cached_normal() {
    let mut rng = Rng::new_seed(5);
    let pending = 1.25f64.to_bits();
    rng.cache_normal(pending);
    assert!(rng.has_cached_normal());
    rng.set_seed(6);
    assert!(!rng.has_cached_normal());
    assert_eq!(rng.take_cached_normal(), None);
}

#[test]
fn restart_clears_cached_normal() {
    let mut rng = Rng::new_seed(5);
    rng.cache_normal((-0.5f64).to_bits());
    rng.restart();
    assert_eq!(rng.take_cached_normal(), None);
}

#[test]
fn cached_path_leaves_state() {
    let mut rng = Rng::new_seed(99);
    assert_eq!(rng.take_cached_normal(), None);
    let before_first = rng.state();
    rng.next();
    rng.next();
    assert_ne!(rng.state(), before_first);
    rng.cache_normal(0.75f64.to_bits());
    let before_second = rng.state();
    assert_eq!(rng.take_cached_normal(), Some(0.75f64.to_bits()));
    assert_eq!(rng.state(), before_second);
    assert_eq!(rng.take_cached_normal(), None);
    assert_eq!(rng.state(), before_second);
}

#[test]
fn every_draw_moves_state() {
    let mut rng = Rng::new_seed(0);
    for _ in 0..10_000 {
        let before = rng.state();
        let after = rng.next();
        assert_ne!(before, after);
        assert_eq!(after % 4, before.wrapping_add(1) % 4);
    }
}

#[test]
fn uniform_mean_near_half() {
    let mut rng = Rng::new_seed(2024);
    let n = 200_000;
    let sum: f64 = rng.draws(n).iter().map(|&x| x as f64 / u64::MAX as f64).sum();
    let mean = sum / n as f64;
    assert!((mean - 0.5).abs() < 0.005, "mean {}", mean);
}

#[test]
fn clock_seeded_engine_starts_at_its_seed() {
    let mut rng = Rng::new();
    assert_eq!(rng.state(), rng.seed());
    assert!(!rng.has_cached_normal());
    let seed = rng.seed();
    let first = rng.next();
    assert_eq!(first, 6364136223846793005u64.wrapping_mul(seed).wrapping_add(1));
}

#[test]
fn split_draws_concatenate() {
    let mut a = Rng::new_seed(31);
    let mut b = Rng::new_seed(31);
    let mut split = a.draws(3);
    split.extend(a.draws(4));
    assert_eq!(split, b.draws(7));
    assert_eq!(a.state(), b.state());
}

#[test]
fn clock_reading_becomes_seed() {
    assert_eq!(Rng::seed_from_clock(Some(5)), 5);
    assert_eq!(Rng::seed_from_clock(Some((1u128 << 64) + 7)), 7);
    assert_eq!(Rng::seed_from_clock(Some(u128::MAX)), u64::MAX);
    assert_eq!(Rng::seed_from_clock(Some(1_700_000_000_123_456_789)), 1_700_000_000_123_456_789);
    assert_eq!(Rng::seed_from_clock(None), 0);
}

#[test]
fn engines_from_one_reading_agree() {
    let reading = Some(1_700_000_000_000_000_001u128);
    let mut a = Rng::new_seed(Rng::seed_from_clock(reading));
    let mut b = Rng::new_seed(Rng::seed_from_clock(reading));
    assert_eq!(a.draws(1000), b.draws(1000));
}

#[test]
fn state_does_not_return_within_many_draws() {
    let start = 42u64;
    let mut rng = Rng::new_seed(start);
    for _ in 0..1_000_000 {
        assert_ne!(rng.next(), start);
    }
}
