use resonance::rng::{Lcg, DEFAULT_SEED};

#[test]
fn lcg_first_draws_are_fixed() {
    let mut g = Lcg::new(DEFAULT_SEED);
    assert_eq!(g.next_bits(), 6650628447621433);
    assert_eq!(g.state, 13620487060728696818);
    assert_eq!(g.next_bits(), 7032964815778947);
    assert_eq!(g.next_bits(), 8313650616007591);
}

#[test]
fn lcg_same_seed_same_stream() {
    let mut a = Lcg::new(42);
    let mut b = Lcg::new(42);
    for _ in 0..1000 {
        assert_eq!(a.next_bits(), b.next_bits());
    }
    assert_eq!(a.state, b.state);
}

#[test]
fn lcg_draws_stay_below_two_pow_53() {
    let mut g = Lcg::new(0);
    for _ in 0..10000 {
        assert!(g.next_bits() < (1u64 << 53));
    }
}

#[test]
fn lcg_different_seeds_differ() {
    let mut a = Lcg::new(1);
    let mut b = Lcg::new(2);
    assert_ne!(a.next_bits(), b.next_bits());
}
