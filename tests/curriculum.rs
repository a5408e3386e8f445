use resonance::curriculum::{
    Curriculum, Mode, DAMPING_MAX, PLASTICITY_MAX, PLASTICITY_MIN, STIFFNESS_MAX, STIFFNESS_MIN,
};

fn pseudo(seed: &mut u64) -> u64 {
    *seed = seed.wrapping_mul(6364136223846793005).wrapping_add(1442695040888963407);
    *seed >> 33
}

#[test]
fn curriculum_starts_in_discover() {
    let c = Curriculum::new();
    assert_eq!(c.schedule.mode, Mode::Discover);
    assert_eq!(c.schedule.stiffness, 1000);
    assert_eq!(c.schedule.damping, 0);
    assert_eq!(c.schedule.plasticity, 50000);
    assert_eq!(c.schedule.stage, 0);
    assert!(!c.schedule.jitter_pending);
    assert!(!c.energy_init);
}

#[test]
fn curriculum_constant_stream_cycles_modes() {
    let mut c = Curriculum::new();
    let mut jitters = 0;
    for tick in 1..=260 {
        c.update_from_energy(-2500);
        if c.take_jitter() {
            jitters += 1;
            assert_eq!(tick, 231);
        }
        match tick {
            150 => assert_eq!(c.schedule.mode, Mode::Discover),
            151 => {
                assert_eq!(c.schedule.mode, Mode::Consolidate);
                assert_eq!(c.schedule.stage, 1);
                assert_eq!(c.schedule.stiffness, 1250);
                assert_eq!(c.schedule.damping, 1000);
                assert_eq!(c.schedule.plasticity, 42500);
                assert_eq!(c.schedule.mode_timer, 79);
            }
            230 => assert_eq!(c.schedule.mode, Mode::Consolidate),
            231 => {
                assert_eq!(c.schedule.mode, Mode::Release);
                assert_eq!(c.schedule.mode_timer, 20);
            }
            250 => assert_eq!(c.schedule.mode, Mode::Release),
            251 => assert_eq!(c.schedule.mode, Mode::Discover),
            _ => {}
        }
    }
    assert_eq!(jitters, 1);
}

#[test]
fn curriculum_release_lasts_release_steps_ticks() {
    let mut c = Curriculum::new();
    let mut release_ticks = 0;
    let mut consolidate_ticks = 0;
    for _ in 0..300 {
        c.update_from_energy(-5000);
        match c.schedule.mode {
            Mode::Release => release_ticks += 1,
            Mode::Consolidate => consolidate_ticks += 1,
            Mode::Discover => {}
        }
    }
    assert_eq!(consolidate_ticks, 80);
    assert_eq!(release_ticks, 20);
}

#[test]
fn curriculum_zero_capacity_window_leaves_schedule_alone() {
    let mut c = Curriculum::with_window(0);
    for k in 0..1000 {
        c.update_from_energy(if k % 2 == 0 { 3_000_000 } else { -3_000_000 });
    }
    assert!(c.energy_init);
    assert_eq!(c.window.len(), 0);
    assert_eq!(c.schedule.stable_count, 0);
    assert_eq!(c.schedule.unstable_count, 0);
    assert_eq!(c.schedule.stage, 0);
    assert_eq!(c.schedule.mode, Mode::Discover);
    assert_eq!(c.schedule.mode_timer, 0);
    assert!(!c.schedule.jitter_pending);
    assert_eq!(c.schedule.stiffness, STIFFNESS_MIN);
    assert_eq!(c.schedule.damping, 0);
    assert_eq!(c.schedule.plasticity, PLASTICITY_MAX);
}

#[test]
fn curriculum_small_window_still_classifies() {
    let mut c = Curriculum::with_window(3);
    for _ in 0..151 {
        c.update_from_energy(700);
    }
    assert_eq!(c.schedule.mode, Mode::Consolidate);
    assert_eq!(c.window.len(), 3);
}

#[test]
fn curriculum_jitter_stays_pending_until_taken() {
    let mut c = Curriculum::new();
    for _ in 0..240 {
        c.update_from_energy(0);
    }
    assert!(c.schedule.jitter_pending);
    assert!(c.take_jitter());
    assert!(!c.schedule.jitter_pending);
    assert!(!c.take_jitter());
}

#[test]
fn curriculum_unstable_stream_relaxes() {
    let mut c = Curriculum::new();
    for tick in 1..=402 {
        c.update_from_energy(if tick % 2 == 0 { 1_000_000 } else { -1_000_000 });
        if tick == 1 {
            assert_eq!(c.schedule.stable_count, 1);
        }
        if tick == 60 {
            assert_eq!(c.schedule.stable_count, 0);
            assert_eq!(c.schedule.unstable_count, 59);
        }
        if tick == 401 {
            assert_eq!(c.schedule.unstable_count, 400);
        }
    }
    assert_eq!(c.schedule.unstable_count, 0);
    assert_eq!(c.schedule.stage, 0);
    assert_eq!(c.schedule.mode, Mode::Discover);
    assert_eq!(c.schedule.stiffness, STIFFNESS_MIN);
    assert_eq!(c.schedule.plasticity, PLASTICITY_MAX);
}

#[test]
fn curriculum_relax_after_tighten_lowers_stage() {
    let mut c = Curriculum::new();
    for _ in 0..151 {
        c.update_from_energy(1000);
    }
    assert_eq!(c.schedule.stage, 1);
    for tick in 0..1000 {
        c.update_from_energy(if tick % 2 == 0 { 2_000_000 } else { -2_000_000 });
    }
    assert_eq!(c.schedule.stage, 0);
    assert_eq!(c.schedule.stiffness, 1127);
    assert_eq!(c.schedule.damping, 810);
    assert_eq!(c.schedule.plasticity, 50000);
}

#[test]
fn curriculum_knobs_stay_in_bounds() {
    let mut seed = 5u64;
    let mut c = Curriculum::new();
    for _ in 0..20000 {
        let r = pseudo(&mut seed);
        let e = if r % 3 == 0 { 5000 } else { (r % 4_000_000) as i32 - 2_000_000 };
        c.update_from_energy(e);
        let s = c.schedule;
        assert!(STIFFNESS_MIN <= s.stiffness && s.stiffness <= STIFFNESS_MAX);
        assert!(PLASTICITY_MIN <= s.plasticity && s.plasticity <= PLASTICITY_MAX);
        assert!(s.damping <= DAMPING_MAX);
    }
}

#[test]
fn curriculum_long_steady_run_saturates_knobs() {
    let mut c = Curriculum::new();
    for _ in 0..(151 * 40) {
        c.update_from_energy(100);
    }
    assert_eq!(c.schedule.stage, 40);
    assert_eq!(c.schedule.stiffness, STIFFNESS_MAX);
    assert_eq!(c.schedule.damping, 40_000);
    assert_eq!(c.schedule.plasticity, PLASTICITY_MIN);
}

#[test]
fn curriculum_ema_seeds_then_smooths() {
    let mut c = Curriculum::new();
    c.update_from_energy(1000);
    assert!(c.energy_init);
    assert_eq!(c.energy_ema, 1000);
    c.update_from_energy(2000);
    assert_eq!(c.energy_ema, 1020);
    c.update_from_energy(-29);
    assert_eq!(c.energy_ema, 1000);
    c.update_from_energy(1000 - 49);
    assert_eq!(c.energy_ema, 1000);
}
