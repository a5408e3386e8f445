use crate::window::{settled, trailing, EnergyWindow, MAX_WINDOW};
use vstd::prelude::*;

verus! {

/// Stiffness is held in thousandths: `STIFFNESS_MIN` stands for 1.0.
pub const STIFFNESS_MIN: u32 = 1000;
pub const STIFFNESS_MAX: u32 = 8000;
pub const STIFFNESS_STEP: u32 = 250;

/// Damping is held in millionths.
pub const DAMPING_MAX: u32 = 50000;
pub const DAMPING_STEP: u32 = 1000;

/// Plasticity (the learning rate) is held in millionths.
pub const PLASTICITY_MIN: u32 = 1000;
pub const PLASTICITY_MAX: u32 = 50000;

/// Length of the rolling energy window.
pub const VAR_WINDOW: usize = 50;

/// Variance floor of the stability test, in whole energy units squared.
pub const VARIANCE_EPS: u32 = 50;

/// Weight of `|mean|` in the stability test, in thousandths.
pub const VARIANCE_SCALE_MILLI: u32 = 350;

/// A run of unstable ticks longer than this clears the stable run.
pub const WOBBLE_STEPS: usize = 50;

pub const TIGHTEN_STABLE_STEPS: usize = 150;
pub const RELAX_UNSTABLE_STEPS: usize = 400;
pub const CONSOLIDATE_STEPS: usize = 80;
pub const RELEASE_STEPS: usize = 20;

/// Divisor of the energy moving average: each sample weighs 1/50.
pub const EMA_DIVISOR: i64 = 50;

/// Total coupling strength that weight normalisation aims at, in thousandths.
pub const TARGET_TOTAL_STRENGTH_MILLI: u32 = 10000;

/// Amplitude of the exploration kick asked for on release, in millionths.
pub const RELEASE_JITTER_MICRO: u32 = 50000;

/// The controller's cyclic mode. Learning runs in `Consolidate`.
#[derive(PartialEq, Eq, Structural, Clone, Copy, Debug)]
pub enum Mode {
    Discover,
    Consolidate,
    Release,
}

/// The knobs and counters of the controller: everything it decides, apart
/// from the energy statistics it decides from.
#[derive(Clone, Copy, Debug)]
pub struct Schedule {
    /// Exponent of the Hebbian correlation, in thousandths.
    pub stiffness: u32,
    /// In millionths.
    pub damping: u32,
    /// Learning rate, in millionths.
    pub plasticity: u32,
    pub stable_count: usize,
    pub unstable_count: usize,
    pub stage: usize,
    pub mode: Mode,
    pub mode_timer: usize,
    /// Set when a release begins; the caller clears it after acting on it.
    pub jitter_pending: bool,
}

/// `x * num / den`, rounded down.
pub open spec fn scaled(x: u32, num: u32, den: u32) -> u32 {
    (x as int * num as int / den as int) as u32
}

pub open spec fn min_u32(a: u32, b: u32) -> u32 {
    if a < b {
        a
    } else {
        b
    }
}

pub open spec fn max_u32(a: u32, b: u32) -> u32 {
    if a > b {
        a
    } else {
        b
    }
}

impl Schedule {
    /// The knobs lie within their bounds and the counters below their triggers.
    pub open spec fn wf(&self) -> bool {
        &&& STIFFNESS_MIN <= self.stiffness <= STIFFNESS_MAX
        &&& self.damping <= DAMPING_MAX
        &&& PLASTICITY_MIN <= self.plasticity <= PLASTICITY_MAX
        &&& self.stable_count <= TIGHTEN_STABLE_STEPS
        &&& self.unstable_count <= RELAX_UNSTABLE_STEPS
        &&& self.mode_timer <= CONSOLIDATE_STEPS
    }

    /// Step 1: the stable and unstable runs after one classified tick.
    pub open spec fn counted(self, stable: bool) -> Schedule {
        if stable {
            Schedule { stable_count: (self.stable_count + 1) as usize, unstable_count: 0, ..self }
        } else {
            let u = (self.unstable_count + 1) as usize;
            Schedule {
                unstable_count: u,
                stable_count: if u > WOBBLE_STEPS {
                    0
                } else {
                    self.stable_count
                },
                ..self
            }
        }
    }

    /// Step 2: a stable run longer than `TIGHTEN_STABLE_STEPS` raises the
    /// stage, stiffens, damps, slows learning and starts a consolidation.
    pub open spec fn tightened(self) -> Schedule {
        if self.stable_count > TIGHTEN_STABLE_STEPS {
            Schedule {
                stage: if self.stage < usize::MAX {
                    (self.stage + 1) as usize
                } else {
                    self.stage
                },
                stable_count: 0,
                stiffness: min_u32((self.stiffness + STIFFNESS_STEP) as u32, STIFFNESS_MAX),
                damping: min_u32((self.damping + DAMPING_STEP) as u32, DAMPING_MAX),
                plasticity: max_u32(scaled(self.plasticity, 85, 100), PLASTICITY_MIN),
                mode: Mode::Consolidate,
                mode_timer: CONSOLIDATE_STEPS,
                ..self
            }
        } else {
            self
        }
    }

    /// Step 3: an unstable run longer than `RELAX_UNSTABLE_STEPS` lowers the
    /// stage (not below zero), softens, undamps, speeds learning up and goes
    /// back to discovery.
    pub open spec fn relaxed(self) -> Schedule {
        if self.unstable_count > RELAX_UNSTABLE_STEPS {
            Schedule {
                stage: if self.stage > 0 {
                    (self.stage - 1) as usize
                } else {
                    0
                },
                unstable_count: 0,
                stiffness: max_u32(scaled(self.stiffness, 95, 100), STIFFNESS_MIN),
                damping: scaled(self.damping, 9, 10),
                plasticity: min_u32(scaled(self.plasticity, 110, 100), PLASTICITY_MAX),
                mode: Mode::Discover,
                mode_timer: 0,
                ..self
            }
        } else {
            self
        }
    }

    /// Step 4: the mode timer runs down. Consolidation ends in a release
    /// (which asks for a jitter) once its timer has run out; a release counts
    /// its tick first and ends in discovery on the tick that uses up its timer.
    pub open spec fn timed(self) -> Schedule {
        match self.mode {
            Mode::Consolidate => if self.mode_timer > 0 {
                Schedule { mode_timer: (self.mode_timer - 1) as usize, ..self }
            } else {
                Schedule { mode: Mode::Release, mode_timer: RELEASE_STEPS, jitter_pending: true, ..self }
            },
            Mode::Release => if self.mode_timer > 1 {
                Schedule { mode_timer: (self.mode_timer - 1) as usize, ..self }
            } else {
                Schedule { mode: Mode::Discover, mode_timer: 0, ..self }
            },
            Mode::Discover => self,
        }
    }

    /// The whole effect of one classified tick.
    pub open spec fn observed(self, stable: bool) -> Schedule {
        self.counted(stable).tightened().relaxed().timed()
    }

    pub open spec fn new_spec() -> Schedule {
        Schedule {
            stiffness: STIFFNESS_MIN,
            damping: 0,
            plasticity: PLASTICITY_MAX,
            stable_count: 0,
            unstable_count: 0,
            stage: 0,
            mode: Mode::Discover,
            mode_timer: 0,
            jitter_pending: false,
        }
    }

    /// The schedule after ticks classified as `ticks`, in order.
    pub open spec fn run(self, ticks: Seq<bool>) -> Schedule
        decreases ticks.len(),
    {
        if ticks.len() == 0 {
            self
        } else {
            self.run(ticks.drop_last()).observed(ticks.last())
        }
    }

    /// The schedule after `k` ticks that all count as stable.
    pub open spec fn run_steady(self, k: nat) -> Schedule
        decreases k,
    {
        if k == 0 {
            self
        } else {
            self.run_steady((k - 1) as nat).observed(true)
        }
    }

    pub fn new() -> (r: Schedule)
        ensures
            r == Schedule::new_spec(),
            r.wf(),
    {
        Schedule {
            stiffness: STIFFNESS_MIN,
            damping: 0,
            plasticity: PLASTICITY_MAX,
            stable_count: 0,
            unstable_count: 0,
            stage: 0,
            mode: Mode::Discover,
            mode_timer: 0,
            jitter_pending: false,
        }
    }

    /// Applies one tick that the energy statistics classified as `stable` or not.
    pub fn observe(&mut self, stable: bool)
        requires
            old(self).wf(),
        ensures
            *final(self) == old(self).observed(stable),
            final(self).wf(),
    {
        if stable {
            self.stable_count = self.stable_count + 1;
            self.unstable_count = 0;
        } else {
            self.unstable_count = self.unstable_count + 1;
            if self.unstable_count > WOBBLE_STEPS {
                self.stable_count = 0;
            }
        }
        if self.stable_count > TIGHTEN_STABLE_STEPS {
            self.stage = self.stage.saturating_add(1);
            self.stable_count = 0;
            self.stiffness = if self.stiffness + STIFFNESS_STEP < STIFFNESS_MAX {
                self.stiffness + STIFFNESS_STEP
            } else {
                STIFFNESS_MAX
            };
            self.damping = if self.damping + DAMPING_STEP < DAMPING_MAX {
                self.damping + DAMPING_STEP
            } else {
                DAMPING_MAX
            };
            let p = (self.plasticity as u64 * 85 / 100) as u32;
            self.plasticity = if p > PLASTICITY_MIN {
                p
            } else {
                PLASTICITY_MIN
            };
            self.mode = Mode::Consolidate;
            self.mode_timer = CONSOLIDATE_STEPS;
        }
        if self.unstable_count > RELAX_UNSTABLE_STEPS {
            self.stage = self.stage.saturating_sub(1);
            self.unstable_count = 0;
            let s = (self.stiffness as u64 * 95 / 100) as u32;
            self.stiffness = if s > STIFFNESS_MIN {
                s
            } else {
                STIFFNESS_MIN
            };
            self.damping = (self.damping as u64 * 9 / 10) as u32;
            let p = (self.plasticity as u64 * 110 / 100) as u32;
            self.plasticity = if p < PLASTICITY_MAX {
                p
            } else {
                PLASTICITY_MAX
            };
            self.mode = Mode::Discover;
            self.mode_timer = 0;
        }
        match self.mode {
            Mode::Consolidate => {
                if self.mode_timer > 0 {
                    self.mode_timer = self.mode_timer - 1;
                } else {
                    self.mode = Mode::Release;
                    self.mode_timer = RELEASE_STEPS;
                    self.jitter_pending = true;
                }
            },
            Mode::Release => {
                if self.mode_timer > 1 {
                    self.mode_timer = self.mode_timer - 1;
                } else {
                    self.mode = Mode::Discover;
                    self.mode_timer = 0;
                }
            },
            Mode::Discover => {},
        }
    }
}

/// Whatever the ticks, stiffness stays within `[STIFFNESS_MIN, STIFFNESS_MAX]`,
/// plasticity within `[PLASTICITY_MIN, PLASTICITY_MAX]`, damping within
/// `[0, DAMPING_MAX]`, and the stage never drops below zero.
pub proof fn lemma_knobs_stay_in_bounds(s: Schedule, ticks: Seq<bool>)
    requires
        s.wf(),
    ensures
        s.run(ticks).wf(),
        STIFFNESS_MIN <= s.run(ticks).stiffness <= STIFFNESS_MAX,
        PLASTICITY_MIN <= s.run(ticks).plasticity <= PLASTICITY_MAX,
        s.run(ticks).damping <= DAMPING_MAX,
        s.run(ticks).stage >= 0,
    decreases ticks.len(),
{
    if ticks.len() > 0 {
        lemma_knobs_stay_in_bounds(s, ticks.drop_last());
        lemma_observed_wf(s.run(ticks.drop_last()), ticks.last());
    }
}

proof fn lemma_observed_wf(s: Schedule, stable: bool)
    requires
        s.wf(),
    ensures
        s.observed(stable).wf(),
{
}

/// The first stretch of a steady run from a fresh schedule: the stable run grows.
proof fn lemma_steady_discover(k: nat)
    requires
        k <= TIGHTEN_STABLE_STEPS,
    ensures
        Schedule::new_spec().run_steady(k) == (Schedule { stable_count: k as usize, ..Schedule::new_spec() }),
    decreases k,
{
    if k > 0 {
        lemma_steady_discover((k - 1) as nat);
    }
}

/// The schedule right after the first tightening of a steady run.
pub open spec fn first_consolidation() -> Schedule {
    Schedule {
        stiffness: (STIFFNESS_MIN + STIFFNESS_STEP) as u32,
        damping: DAMPING_STEP,
        plasticity: 42500,
        stable_count: 0,
        unstable_count: 0,
        stage: 1,
        mode: Mode::Consolidate,
        mode_timer: (CONSOLIDATE_STEPS - 1) as usize,
        jitter_pending: false,
    }
}

/// The schedule when the first consolidation of a steady run gives way to release.
pub open spec fn first_release() -> Schedule {
    Schedule {
        stable_count: CONSOLIDATE_STEPS,
        mode: Mode::Release,
        mode_timer: RELEASE_STEPS,
        jitter_pending: true,
        ..first_consolidation()
    }
}

proof fn lemma_steady_consolidate(k: nat)
    requires
        k < CONSOLIDATE_STEPS,
    ensures
        Schedule::new_spec().run_steady((TIGHTEN_STABLE_STEPS + 1 + k) as nat) == (Schedule {
            stable_count: k as usize,
            mode_timer: (CONSOLIDATE_STEPS - 1 - k) as usize,
            ..first_consolidation()
        }),
    decreases k,
{
    if k == 0 {
        lemma_steady_discover(TIGHTEN_STABLE_STEPS as nat);
        assert(scaled(PLASTICITY_MAX, 85, 100) == 42500);
    } else {
        lemma_steady_consolidate((k - 1) as nat);
    }
}

proof fn lemma_steady_release(k: nat)
    requires
        k < RELEASE_STEPS,
    ensures
        Schedule::new_spec().run_steady((TIGHTEN_STABLE_STEPS + 1 + CONSOLIDATE_STEPS + k) as nat) == (Schedule {
            stable_count: (CONSOLIDATE_STEPS + k) as usize,
            mode_timer: (RELEASE_STEPS - k) as usize,
            ..first_release()
        }),
    decreases k,
{
    if k == 0 {
        lemma_steady_consolidate((CONSOLIDATE_STEPS - 1) as nat);
    } else {
        lemma_steady_release((k - 1) as nat);
    }
}

/// A steady run from a fresh schedule: it stays in discovery for
/// `TIGHTEN_STABLE_STEPS` ticks; the next tick tightens and starts a
/// consolidation, which lasts `CONSOLIDATE_STEPS` ticks in all; the tick after
/// that starts a release and raises the jitter request, which was not raised
/// before; the release lasts `RELEASE_STEPS` ticks in all, and the tick
/// after them is back in discovery.
pub proof fn lemma_steady_cycle()
    ensures
        Schedule::new_spec().run_steady(TIGHTEN_STABLE_STEPS as nat).mode == Mode::Discover,
        Schedule::new_spec().run_steady((TIGHTEN_STABLE_STEPS + 1) as nat).mode == Mode::Consolidate,
        Schedule::new_spec().run_steady((TIGHTEN_STABLE_STEPS + 1) as nat).stage == 1,
        Schedule::new_spec().run_steady((TIGHTEN_STABLE_STEPS + CONSOLIDATE_STEPS) as nat).mode
            == Mode::Consolidate,
        !Schedule::new_spec().run_steady((TIGHTEN_STABLE_STEPS + CONSOLIDATE_STEPS) as nat).jitter_pending,
        Schedule::new_spec().run_steady((TIGHTEN_STABLE_STEPS + 1 + CONSOLIDATE_STEPS) as nat).mode
            == Mode::Release,
        Schedule::new_spec().run_steady(
            (TIGHTEN_STABLE_STEPS + 1 + CONSOLIDATE_STEPS) as nat,
        ).jitter_pending,
        Schedule::new_spec().run_steady(
            (TIGHTEN_STABLE_STEPS + 1 + CONSOLIDATE_STEPS) as nat,
        ).mode_timer == RELEASE_STEPS,
        Schedule::new_spec().run_steady(
            (TIGHTEN_STABLE_STEPS + CONSOLIDATE_STEPS + RELEASE_STEPS) as nat,
        ).mode == Mode::Release,
        Schedule::new_spec().run_steady(
            (TIGHTEN_STABLE_STEPS + 1 + CONSOLIDATE_STEPS + RELEASE_STEPS) as nat,
        ).mode == Mode::Discover,
{
    lemma_steady_discover(TIGHTEN_STABLE_STEPS as nat);
    lemma_steady_consolidate(0);
    lemma_steady_consolidate((CONSOLIDATE_STEPS - 1) as nat);
    lemma_steady_release(0);
    lemma_steady_release((RELEASE_STEPS - 1) as nat);
    assert(Schedule::new_spec().run_steady(
        (TIGHTEN_STABLE_STEPS + 1 + CONSOLIDATE_STEPS + RELEASE_STEPS) as nat,
    ) == Schedule::new_spec().run_steady(
        (TIGHTEN_STABLE_STEPS + CONSOLIDATE_STEPS + RELEASE_STEPS) as nat,
    ).observed(true));
}

/// One step of the energy moving average: the old average moves by a
/// fiftieth of the gap to the new sample, rounded toward the old average.
pub open spec fn ema_step(ema: int, e: int) -> int {
    let d = e - ema;
    if d >= 0 {
        ema + d / EMA_DIVISOR as int
    } else {
        ema - (-d) / EMA_DIVISOR as int
    }
}

/// Adaptive controller: watches the energy of each tick and tunes stiffness,
/// damping and plasticity, cycling through discovery, consolidation and
/// release. Energies are taken in thousandths of a unit.
pub struct Curriculum {
    /// Moving average of the energy, in thousandths.
    pub energy_ema: i64,
    /// Whether any energy has been seen.
    pub energy_init: bool,
    /// The most recent energies (`VAR_WINDOW` of them, unless built otherwise).
    pub window: EnergyWindow,
    pub schedule: Schedule,
}

impl Curriculum {
    pub open spec fn wf(&self) -> bool {
        &&& self.window.wf()
        &&& self.schedule.wf()
        &&& i32::MIN <= self.energy_ema <= i32::MAX
    }

    pub fn new() -> (r: Curriculum)
        ensures
            r.wf(),
            r.window.capacity() == VAR_WINDOW,
            !r.energy_init,
            r.energy_ema == 0,
            r.window.history() == Seq::<i32>::empty(),
            r.schedule == Schedule::new_spec(),
    {
        Curriculum {
            energy_ema: 0,
            energy_init: false,
            window: EnergyWindow::new(VAR_WINDOW),
            schedule: Schedule::new(),
        }
    }

    /// A controller whose energy window holds `capacity` samples. With
    /// capacity zero no statistics exist, and the controller never moves.
    pub fn with_window(capacity: usize) -> (r: Curriculum)
        requires
            capacity <= MAX_WINDOW,
        ensures
            r.wf(),
            r.window.capacity() == capacity,
            !r.energy_init,
            r.energy_ema == 0,
            r.window.history() == Seq::<i32>::empty(),
            r.schedule == Schedule::new_spec(),
    {
        Curriculum {
            energy_ema: 0,
            energy_init: false,
            window: EnergyWindow::new(capacity),
            schedule: Schedule::new(),
        }
    }

    /// Feeds the energy of one tick (in thousandths) to the controller.
    pub fn update_from_energy(&mut self, energy: i32)
        requires
            old(self).wf(),
        ensures
            final(self).wf(),
            final(self).energy_init,
            final(self).energy_ema == if old(self).energy_init {
                ema_step(old(self).energy_ema as int, energy as int)
            } else {
                energy as int
            },
            final(self).window.history() == old(self).window.history().push(energy),
            final(self).window.capacity() == old(self).window.capacity(),
            final(self).window.live() == trailing(
                final(self).window.history(),
                old(self).window.capacity(),
            ),
            old(self).window.capacity() == 0 ==> final(self).schedule == old(self).schedule,
            old(self).window.capacity() > 0 ==> final(self).schedule == old(self).schedule.observed(
                settled(final(self).window.live(), VARIANCE_EPS as int, VARIANCE_SCALE_MILLI as int),
            ),
    {
        if !self.energy_init {
            self.energy_ema = energy as i64;
            self.energy_init = true;
        } else {
            let d: i64 = energy as i64 - self.energy_ema;
            let step: i64 = if d >= 0 {
                d / EMA_DIVISOR
            } else {
                -((-d) / EMA_DIVISOR)
            };
            self.energy_ema = self.energy_ema + step;
        }
        self.window.push(energy);
        proof {
            self.window.lemma_stats_match_trailing();
        }
        if self.window.len() == 0 {
            return;
        }
        let stable = self.window.is_settled(VARIANCE_EPS, VARIANCE_SCALE_MILLI);
        self.schedule.observe(stable);
    }

    /// Reports whether a release asked for an exploration kick, and clears the request.
    pub fn take_jitter(&mut self) -> (r: bool)
        requires
            old(self).wf(),
        ensures
            final(self).wf(),
            r == old(self).schedule.jitter_pending,
            !final(self).schedule.jitter_pending,
            final(self).schedule == (Schedule { jitter_pending: false, ..old(self).schedule }),
            final(self).window == old(self).window,
            final(self).energy_ema == old(self).energy_ema,
            final(self).energy_init == old(self).energy_init,
    {
        let r = self.schedule.jitter_pending;
        self.schedule.jitter_pending = false;
        r
    }
}

} // verus!
