use resonance::window::EnergyWindow;

fn direct(samples: &[i32], cap: usize) -> (i128, i128, usize) {
    let n = samples.len().min(cap);
    let tail = &samples[samples.len() - n..];
    let s: i128 = tail.iter().map(|&x| x as i128).sum();
    let q: i128 = tail.iter().map(|&x| (x as i128) * (x as i128)).sum();
    (s, q, n)
}

fn pseudo(seed: &mut u64) -> i32 {
    *seed = seed.wrapping_mul(6364136223846793005).wrapping_add(1442695040888963407);
    (*seed >> 32) as u32 as i32
}

#[test]
fn window_stats_match_direct_recomputation() {
    for &cap in &[1usize, 2, 7, 50] {
        let mut w = EnergyWindow::new(cap);
        let mut seed = cap as u64;
        let mut fed = Vec::new();
        for _ in 0..300 {
            let e = pseudo(&mut seed);
            fed.push(e);
            w.push(e);
            let (s, q, n) = direct(&fed, cap);
            assert_eq!(w.sum(), s);
            assert_eq!(w.sum_sq(), q);
            assert_eq!(w.len(), n);
        }
    }
}

#[test]
fn window_warm_up_counts_only_written_samples() {
    let mut w = EnergyWindow::new(50);
    w.push(3000);
    w.push(5000);
    assert_eq!(w.len(), 2);
    assert_eq!(w.sum(), 8000);
    assert_eq!(w.sum_sq(), 34_000_000);
}

#[test]
fn window_evicts_oldest_when_full() {
    let mut w = EnergyWindow::new(3);
    for e in [1, 2, 3, 4, 5] {
        w.push(e);
    }
    assert_eq!(w.len(), 3);
    assert_eq!(w.sum(), 12);
    assert_eq!(w.sum_sq(), 9 + 16 + 25);
}

#[test]
fn window_of_capacity_zero_holds_nothing() {
    let mut w = EnergyWindow::new(0);
    w.push(7);
    assert_eq!(w.len(), 0);
    assert_eq!(w.sum(), 0);
    assert!(!w.is_settled(50, 350));
}

#[test]
fn window_extreme_samples_do_not_overflow() {
    let mut w = EnergyWindow::new(50);
    for k in 0..120 {
        w.push(if k % 2 == 0 { i32::MIN } else { i32::MAX });
    }
    assert_eq!(w.sum(), 25 * (i32::MIN as i128) + 25 * (i32::MAX as i128));
    assert!(!w.is_settled(50, 350));
}

#[test]
fn window_settled_threshold_exact() {
    // Samples 0 and 2d (thousandths): mean d, variance d^2 (in thousandths squared).
    // With eps = 1 unit^2 = 1e6 milli^2 and scale 0: settled iff d^2 < 1e6, i.e. d < 1000.
    let mut w = EnergyWindow::new(2);
    w.push(0);
    w.push(2 * 999);
    assert!(w.is_settled(1, 0));
    let mut w = EnergyWindow::new(2);
    w.push(0);
    w.push(2 * 1000);
    assert!(!w.is_settled(1, 0));
    // Scale term: variance 1e6 milli^2 < 1e6 + scale * |mean| once scale > 0.
    assert!(w.is_settled(1, 1));
}

#[test]
fn window_constant_samples_settle() {
    let mut w = EnergyWindow::new(50);
    for _ in 0..80 {
        w.push(-123_456);
        assert!(w.is_settled(50, 350));
    }
}
