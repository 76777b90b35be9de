//! The volume controller: the interpolation state machine.
//!
//! The controller is a pure state machine. The surrounding process
//! feeds it decoded commands, freshly sampled volumes and a monotonic
//! clock, and carries its outputs — one volume to apply per tick — to
//! the audio subsystem.
//!
//! A transition from `initial` towards `target` over `ticks_total`
//! ticks stands at `initial + (target - initial) * k / ticks_total`
//! after `k` interpolation steps, with the division truncated towards
//! `initial`. The step's sign is fixed at creation; the tick that
//! reaches or overshoots `target` applies exactly `target` and ends
//! the transition.

use vstd::prelude::*;
use vstd::arithmetic::div_mod::{
    lemma_div_by_multiple,
    lemma_div_is_ordered,
    lemma_div_pos_is_pos,
    lemma_multiply_divide_lt,
};
use vstd::arithmetic::mul::{lemma_mul_inequality, lemma_mul_upper_bound};
use crate::codec::{DUR_LIMIT, VolumeChange, bounded_change, collapse_spec};
use crate::volume::{VOL_LIMIT, VOL_UNIT};

verus! {

/// Duration units per millisecond.
pub const DUR_UNITS_PER_MS: i64 = 10_000;

/// Ceiling of the configurable tick interval and default duration,
/// in milliseconds: one billion, mirroring the validity window of a
/// requested duration.
pub const MS_LIMIT: u64 = 1_000_000_000;

/// Ceiling of a transition's tick count: the longest duration over
/// the shortest interval.
pub const TICKS_MAX: u64 = 1_000_000_000;

/// How long a cached sink stays fresh, in milliseconds.
pub const SINK_FRESH_MS: u64 = 1_000;

/// The controller's fixed configuration, set once at startup.
#[derive(Debug, Clone, Copy, PartialEq, Eq)]
pub struct Config {
    /// Nominal time between ticks, in milliseconds.
    pub interval_ms: u64,
    /// Transition duration used when a change names none, in
    /// milliseconds.
    pub default_duration_ms: u64,
    /// Whether targets are clamped to the nominal full volume.
    pub clamp: bool,
}

impl Config {
    pub open spec fn wf(self) -> bool {
        &&& 1 <= self.interval_ms <= MS_LIMIT
        &&& self.default_duration_ms <= MS_LIMIT
    }
}

/// One in-flight transition; its absence is the idle state.
#[derive(Debug, Clone, Copy, PartialEq, Eq)]
pub struct TransitionState {
    /// Final linear volume, in units.
    pub target: i64,
    /// Linear volume sampled from the subsystem at transition start.
    pub initial: i64,
    /// How many interpolation steps span the transition.
    pub ticks_total: u64,
    /// Interpolation steps already applied.
    pub iteration: u64,
}

impl TransitionState {
    pub open spec fn wf(self) -> bool {
        &&& 0 <= self.initial <= VOL_LIMIT
        &&& 0 <= self.target <= VOL_LIMIT
        &&& 1 <= self.ticks_total <= TICKS_MAX
        &&& self.iteration <= self.ticks_total
    }

    /// The whole distance the transition covers; the per-tick step is
    /// this over `ticks_total`, its sign fixed at creation.
    pub open spec fn diff(self) -> int {
        self.target - self.initial
    }

    pub open spec fn magnitude(self) -> int {
        if self.diff() >= 0 {
            self.diff()
        } else {
            -self.diff()
        }
    }

    /// Where the interpolation stands after `k` steps: `initial` plus
    /// `k` per-tick steps, truncated towards `initial`.
    pub open spec fn interp(self, k: int) -> int {
        let q = (self.magnitude() * k) / (self.ticks_total as int);
        if self.diff() >= 0 {
            self.initial + q
        } else {
            self.initial - q
        }
    }

    /// Whether step `k` reaches or overshoots the target, making it
    /// the transition's final tick.
    pub open spec fn snaps_at(self, k: int) -> bool {
        if self.diff() >= 0 {
            self.interp(k) >= self.target
        } else {
            self.interp(k) <= self.target
        }
    }

    /// The volume step `k` applies to the subsystem: the interpolated
    /// value, or exactly the target on the final tick.
    pub open spec fn applied_at(self, k: int) -> int {
        if self.snaps_at(k) {
            self.target as int
        } else {
            self.interp(k)
        }
    }

    /// The controller's estimate of the volume now: the value the
    /// most recent tick applied, or `initial` before any tick.
    pub open spec fn current_estimate(self) -> int {
        if self.iteration == 0 {
            self.initial as int
        } else {
            self.interp(self.iteration - 1)
        }
    }
}

/// Interpolated values stay between `initial` and `target`.
pub proof fn lemma_interp_bounds(t: TransitionState, k: int)
    requires
        t.wf(),
        0 <= k <= t.ticks_total,
    ensures
        t.diff() >= 0 ==> t.initial <= t.interp(k) <= t.target,
        t.diff() < 0 ==> t.target <= t.interp(k) <= t.initial,
        0 <= t.interp(k) <= VOL_LIMIT,
{
    let m = t.magnitude();
    let tt = t.ticks_total as int;
    lemma_mul_upper_bound(m, m, k, tt);
    lemma_mul_inequality(k, tt, m);
    assert(k * m == m * k) by (nonlinear_arith);
    assert(tt * m == m * tt) by (nonlinear_arith);
    lemma_div_is_ordered(m * k, m * tt, tt);
    lemma_div_by_multiple(m, tt);
    assert((m * tt) / tt == m);
    lemma_div_pos_is_pos(m * k, tt);
    assert(m * k >= 0) by (nonlinear_arith)
        requires m >= 0 && k >= 0;
}

/// After the full tick count the interpolation stands exactly at the
/// target: the division leaves no residual error.
pub proof fn lemma_interp_total(t: TransitionState)
    requires
        t.wf(),
    ensures
        t.interp(t.ticks_total as int) == t.target,
        t.snaps_at(t.ticks_total as int),
{
    let m = t.magnitude();
    let tt = t.ticks_total as int;
    lemma_div_by_multiple(m, tt);
    assert((m * tt) / tt == m);
}

/// Before the full tick count a transition that moves at all has not
/// yet reached its target: no early snap, no overshoot.
pub proof fn lemma_no_early_snap(t: TransitionState, k: int)
    requires
        t.wf(),
        t.target != t.initial,
        0 <= k < t.ticks_total,
    ensures
        !t.snaps_at(k),
    decreases 0int,
{
    let m = t.magnitude();
    let tt = t.ticks_total as int;
    assert(m * k < m * tt) by (nonlinear_arith)
        requires m > 0 && 0 <= k < tt;
    assert(m * k >= 0) by (nonlinear_arith)
        requires m > 0 && k >= 0;
    assert(tt * m == m * tt) by (nonlinear_arith);
    lemma_multiply_divide_lt(m * k, tt, m);
}

/// Interpolated values are monotonic in the direction of the step's
/// sign over one uninterrupted transition.
pub proof fn lemma_interp_monotone(t: TransitionState, k1: int, k2: int)
    requires
        t.wf(),
        0 <= k1 <= k2 <= t.ticks_total,
    ensures
        t.diff() >= 0 ==> t.interp(k1) <= t.interp(k2),
        t.diff() < 0 ==> t.interp(k1) >= t.interp(k2),
{
    let m = t.magnitude();
    let tt = t.ticks_total as int;
    lemma_mul_inequality(k1, k2, m);
    assert(k1 * m == m * k1) by (nonlinear_arith);
    assert(k2 * m == m * k2) by (nonlinear_arith);
    lemma_div_is_ordered(m * k1, m * k2, tt);
}

/// A raw target held to the policy: floored at silence, and capped at
/// nominal full volume when clamping is enabled, else only at the
/// representable ceiling.
pub open spec fn clamp_target(raw: int, clamp: bool) -> int {
    let floored = if raw < 0 {
        0
    } else {
        raw
    };
    let ceiling = if clamp {
        VOL_UNIT as int
    } else {
        VOL_LIMIT as int
    };
    if floored > ceiling {
        ceiling
    } else {
        floored
    }
}

/// The cached default sink: its identifier, channel count, and when
/// it was last re-queried.
#[derive(Debug, PartialEq, Eq)]
pub struct SinkCache {
    /// The subsystem's name for the sink.
    pub name: String,
    /// How many channels the volume-set call must cover.
    pub channels: u8,
    /// Monotonic timestamp of the last refresh, in milliseconds.
    pub refreshed_at_ms: u64,
}

/// The volume controller: fixed configuration, the in-flight
/// transition if any, and the cached sink if known.
#[derive(Debug, PartialEq, Eq)]
pub struct Controller {
    pub config: Config,
    pub transition: Option<TransitionState>,
    pub sink: Option<SinkCache>,
}

/// The duration a change is spread over, in duration units: the
/// requested one where it lies in the valid window, else the
/// configured default.
pub open spec fn effective_duration(cfg: Config, duration: Option<i64>) -> int {
    match duration {
        Some(d) => if 0 <= d <= DUR_LIMIT {
            d as int
        } else {
            cfg.default_duration_ms * DUR_UNITS_PER_MS
        },
        None => cfg.default_duration_ms * DUR_UNITS_PER_MS,
    }
}

/// How many interpolation steps a change is spread over: one when the
/// effective duration is within one tick interval, else the duration
/// in whole milliseconds divided by the interval.
pub open spec fn ticks_for(cfg: Config, duration: Option<i64>) -> int {
    let used = effective_duration(cfg, duration);
    if used <= cfg.interval_ms * DUR_UNITS_PER_MS {
        1
    } else {
        (used / (DUR_UNITS_PER_MS as int)) / (cfg.interval_ms as int)
    }
}

pub proof fn lemma_ticks_bounds(cfg: Config, duration: Option<i64>)
    requires
        cfg.wf(),
    ensures
        1 <= ticks_for(cfg, duration) <= TICKS_MAX,
{
    let used = effective_duration(cfg, duration);
    let iu = cfg.interval_ms * DUR_UNITS_PER_MS;
    assert(cfg.default_duration_ms * DUR_UNITS_PER_MS <= MS_LIMIT * DUR_UNITS_PER_MS)
        by (nonlinear_arith)
        requires cfg.default_duration_ms <= MS_LIMIT;
    assert(0 <= used <= DUR_LIMIT);
    if used > iu {
        let ms = used / (DUR_UNITS_PER_MS as int);
        assert(iu == (cfg.interval_ms as int) * (DUR_UNITS_PER_MS as int));
        lemma_div_is_ordered(iu, used, DUR_UNITS_PER_MS as int);
        lemma_div_by_multiple(cfg.interval_ms as int, DUR_UNITS_PER_MS as int);
        assert(ms >= cfg.interval_ms);
        lemma_div_is_ordered(cfg.interval_ms as int, ms, cfg.interval_ms as int);
        lemma_div_by_multiple(1, cfg.interval_ms as int);
        assert((1 * (cfg.interval_ms as int)) / (cfg.interval_ms as int) == 1);
        assert(1 * (cfg.interval_ms as int) == cfg.interval_ms) by (nonlinear_arith);
        lemma_div_is_ordered(used, DUR_LIMIT as int, DUR_UNITS_PER_MS as int);
        lemma_div_is_ordered(ms, TICKS_MAX as int, cfg.interval_ms as int);
        lemma_div_pos_is_pos(ms, cfg.interval_ms as int);
        assert(ms / (cfg.interval_ms as int) <= (TICKS_MAX as int) / (cfg.interval_ms as int));
        lemma_div_is_ordered_by_one(TICKS_MAX as int, cfg.interval_ms as int);
    }
}

/// Dividing by at least one never grows a non-negative value.
proof fn lemma_div_is_ordered_by_one(x: int, d: int)
    requires
        0 <= x,
        1 <= d,
    ensures
        x / d <= x,
{
    assert(x <= x * d) by (nonlinear_arith)
        requires 0 <= x && 1 <= d;
    lemma_div_is_ordered(x, x * d, d);
    lemma_div_by_multiple(x, d);
}

/// The reference a change is resolved against: the controller's
/// current interpolated estimate while transitioning, else the volume
/// just sampled from the subsystem.
pub open spec fn reference_volume(c: Controller, sampled: i64) -> int {
    match c.transition {
        Some(t) => t.current_estimate(),
        None => sampled as int,
    }
}

/// The target a change resolves to under the controller's policy.
pub open spec fn resolved_target(c: Controller, change: VolumeChange, sampled: i64) -> int {
    clamp_target(collapse_spec(change, reference_volume(c, sampled)), c.config.clamp)
}

/// The transition a change creates: resolved target, freshly sampled
/// start, the duration's tick count, nothing applied yet.
pub open spec fn next_transition(
    c: Controller,
    change: VolumeChange,
    duration: Option<i64>,
    sampled: i64,
) -> TransitionState {
    TransitionState {
        target: resolved_target(c, change, sampled) as i64,
        initial: sampled,
        ticks_total: ticks_for(c.config, duration) as u64,
        iteration: 0,
    }
}

impl Controller {
    pub open spec fn wf(self) -> bool {
        &&& self.config.wf()
        &&& (self.transition matches Some(t) ==> t.wf())
    }

    /// A fresh controller: idle, no sink known.
    pub fn new(config: Config) -> (r: Controller)
        requires
            config.wf(),
        ensures
            r == (Controller { config, transition: None::<TransitionState>, sink: None::<SinkCache> }),
            r.wf(),
    {
        Controller { config, transition: None, sink: None }
    }

    /// While idle the loop blocks for the next command; while
    /// transitioning it only polls, so a tick is never delayed.
    pub fn wants_blocking_recv(&self) -> (r: bool)
        ensures
            r == (self.transition is None),
    {
        self.transition.is_none()
    }

    pub fn is_transitioning(&self) -> (r: bool)
        ensures
            r == (self.transition is Some),
    {
        self.transition.is_some()
    }

    pub fn has_sink(&self) -> (r: bool)
        ensures
            r == (self.sink is Some),
    {
        self.sink.is_some()
    }

    /// Whether the sink cache must be re-queried before a change is
    /// applied: no sink is known, or the cache has outlived its
    /// freshness window.
    pub fn sink_needs_refresh(&self, now_ms: u64) -> (r: bool)
        ensures
            r == match self.sink {
                None => true,
                Some(s) => now_ms - s.refreshed_at_ms > SINK_FRESH_MS,
            },
    {
        match &self.sink {
            None => true,
            Some(s) => now_ms > s.refreshed_at_ms && now_ms - s.refreshed_at_ms > SINK_FRESH_MS,
        }
    }

    /// Records a freshly queried default sink.
    pub fn set_sink(&mut self, name: String, channels: u8, now_ms: u64)
        requires
            old(self).wf(),
        ensures
            final(self).wf(),
            final(self).config == old(self).config,
            final(self).transition == old(self).transition,
            final(self).sink matches Some(s) && s.name == name && s.channels == channels
                && s.refreshed_at_ms == now_ms,
    {
        self.sink = Some(SinkCache { name, channels, refreshed_at_ms: now_ms });
    }

    /// Forgets the cached sink, as after a failed refresh.
    pub fn clear_sink(&mut self)
        requires
            old(self).wf(),
        ensures
            final(self).wf(),
            final(self).config == old(self).config,
            final(self).transition == old(self).transition,
            final(self).sink is None,
    {
        self.sink = None;
    }

    /// The cached sink's name, for the subsystem calls.
    pub fn sink_name(&self) -> (r: &String)
        requires
            self.sink is Some,
        ensures
            self.sink matches Some(s) && *r == s.name,
    {
        match &self.sink {
            Some(s) => &s.name,
            None => vstd::pervasive::unreached(),
        }
    }

    /// The cached sink's channel count.
    pub fn sink_channels(&self) -> (r: u8)
        requires
            self.sink is Some,
        ensures
            self.sink matches Some(s) && r == s.channels,
    {
        match &self.sink {
            Some(s) => s.channels,
            None => vstd::pervasive::unreached(),
        }
    }

    /// Accepts a change command: resolves the target against the
    /// current estimate while transitioning (else against the freshly
    /// sampled volume), clamps it per policy, and replaces any
    /// in-flight transition with a new one starting at the sampled
    /// volume. The sink keeps the channel count read along with the
    /// sample.
    pub fn apply_change(
        &mut self,
        change: VolumeChange,
        duration: Option<i64>,
        sampled: i64,
        channels: u8,
    )
        requires
            old(self).wf(),
            old(self).sink is Some,
            bounded_change(change),
            0 <= sampled <= VOL_LIMIT,
        ensures
            final(self).wf(),
            final(self).config == old(self).config,
            final(self).transition == Some(next_transition(*old(self), change, duration, sampled)),
            final(self).sink matches Some(s) && old(self).sink matches Some(o) && s.name == o.name
                && s.refreshed_at_ms == o.refreshed_at_ms && s.channels == channels,
    {
        let reference: i64 = match &self.transition {
            Some(t) => {
                proof {
                    if t.iteration > 0 {
                        lemma_interp_bounds(*t, t.iteration - 1);
                    }
                }
                current_estimate_exec(t)
            },
            None => sampled,
        };
        let raw = change.collapse(reference);
        let floored: i64 = if raw < 0 {
            0
        } else {
            raw
        };
        let ceiling: i64 = if self.config.clamp {
            VOL_UNIT
        } else {
            VOL_LIMIT
        };
        let target: i64 = if floored > ceiling {
            ceiling
        } else {
            floored
        };
        let ticks = compute_ticks(&self.config, duration);
        self.transition = Some(
            TransitionState { target, initial: sampled, ticks_total: ticks, iteration: 0 },
        );
        match &mut self.sink {
            Some(s) => {
                s.channels = channels;
            },
            None => {},
        }
    }

    /// Abandons any in-flight transition, as when the subsystem
    /// becomes unavailable mid-transition: idle continues.
    pub fn drop_transition(&mut self)
        requires
            old(self).wf(),
        ensures
            final(self).wf(),
            final(self).config == old(self).config,
            final(self).sink == old(self).sink,
            final(self).transition is None,
    {
        self.transition = None;
    }

    /// One interpolation tick. Idle: nothing to apply. Transitioning:
    /// the value after one more step, except that a step reaching or
    /// overshooting the target applies exactly the target and returns
    /// the controller to idle. The caller carries the returned volume
    /// to the subsystem.
    pub fn tick(&mut self) -> (r: Option<i64>)
        requires
            old(self).wf(),
        ensures
            final(self).wf(),
            final(self).config == old(self).config,
            final(self).sink == old(self).sink,
            match old(self).transition {
                None => final(self).transition is None && r is None,
                Some(t) => {
                    let k = t.iteration as int;
                    &&& r == Some(t.applied_at(k) as i64)
                    &&& 0 <= t.applied_at(k) <= VOL_LIMIT
                    &&& (t.snaps_at(k) ==> final(self).transition is None)
                    &&& (!t.snaps_at(k) ==> final(self).transition == Some(
                        TransitionState { iteration: (t.iteration + 1) as u64, ..t },
                    ))
                },
            },
    {
        match self.transition {
            None => None,
            Some(t) => {
                let k = t.iteration;
                let cand = interp_at(&t, k);
                let snap = if t.target >= t.initial {
                    cand >= t.target
                } else {
                    cand <= t.target
                };
                if snap {
                    self.transition = None;
                    Some(t.target)
                } else {
                    proof {
                        lemma_interp_total(t);
                    }
                    self.transition = Some(
                        TransitionState { iteration: k + 1, ..t },
                    );
                    Some(cand)
                }
            },
        }
    }
}

/// Where the interpolation stands after `k` steps.
fn interp_at(t: &TransitionState, k: u64) -> (r: i64)
    requires
        t.wf(),
        k <= t.ticks_total,
    ensures
        r == t.interp(k as int),
        0 <= r <= VOL_LIMIT,
{
    proof {
        lemma_interp_bounds(*t, k as int);
        lemma_mul_upper_bound(t.magnitude(), VOL_LIMIT as int, k as int, TICKS_MAX as int);
    }
    let m: u64 = if t.target >= t.initial {
        (t.target - t.initial) as u64
    } else {
        (t.initial - t.target) as u64
    };
    let q: u64 = (m * k) / t.ticks_total;
    if t.target >= t.initial {
        t.initial + (q as i64)
    } else {
        t.initial - (q as i64)
    }
}

/// The controller's estimate of the volume now.
fn current_estimate_exec(t: &TransitionState) -> (r: i64)
    requires
        t.wf(),
    ensures
        r == t.current_estimate(),
        0 <= r <= VOL_LIMIT,
{
    if t.iteration == 0 {
        t.initial
    } else {
        proof {
            lemma_interp_bounds(*t, t.iteration - 1);
        }
        interp_at(t, t.iteration - 1)
    }
}

/// The tick count for a change's effective duration.
fn compute_ticks(cfg: &Config, duration: Option<i64>) -> (r: u64)
    requires
        cfg.wf(),
    ensures
        r as int == ticks_for(*cfg, duration),
        1 <= r <= TICKS_MAX,
{
    proof {
        lemma_ticks_bounds(*cfg, duration);
        assert(cfg.default_duration_ms * DUR_UNITS_PER_MS <= MS_LIMIT * DUR_UNITS_PER_MS)
            by (nonlinear_arith)
            requires cfg.default_duration_ms <= MS_LIMIT;
        assert(cfg.interval_ms * DUR_UNITS_PER_MS <= MS_LIMIT * DUR_UNITS_PER_MS)
            by (nonlinear_arith)
            requires cfg.interval_ms <= MS_LIMIT;
    }
    let default_units: i64 = (cfg.default_duration_ms as i64) * DUR_UNITS_PER_MS;
    let used: i64 = match duration {
        Some(d) => if 0 <= d && d <= DUR_LIMIT {
            d
        } else {
            default_units
        },
        None => default_units,
    };
    let interval_units: i64 = (cfg.interval_ms as i64) * DUR_UNITS_PER_MS;
    if used <= interval_units {
        1
    } else {
        let ms: u64 = (used as u64) / (DUR_UNITS_PER_MS as u64);
        ms / cfg.interval_ms
    }
}

/// A transition whose target differs from its start runs its full
/// tick count: no step before `ticks_total` snaps, the step at
/// `ticks_total` does, and it applies exactly the target — no
/// overshoot, no residual error.
pub proof fn lemma_transition_completes(t: TransitionState)
    requires
        t.wf(),
        t.target != t.initial,
    ensures
        forall|k: int| 0 <= k < t.ticks_total ==> !t.snaps_at(k),
        t.snaps_at(t.ticks_total as int),
        t.applied_at(t.ticks_total as int) == t.target,
        forall|k: int| 0 <= k < t.ticks_total ==> t.applied_at(k) == t.interp(k),
{
    assert forall|k: int| 0 <= k < t.ticks_total implies !t.snaps_at(k) by {
        lemma_no_early_snap(t, k);
    }
    lemma_interp_total(t);
}

/// A single-tick transition — one whose effective duration lies
/// within one tick interval — reaches its target on its first
/// interpolation step, and immediately when the target already equals
/// the start.
pub proof fn lemma_short_duration(t: TransitionState)
    requires
        t.wf(),
        t.ticks_total == 1,
    ensures
        t.snaps_at(1),
        t.applied_at(1) == t.target,
        t.target == t.initial ==> t.snaps_at(0) && t.applied_at(0) == t.target,
        t.target != t.initial ==> !t.snaps_at(0),
{
    lemma_interp_total(t);
    if t.target != t.initial {
        lemma_no_early_snap(t, 0);
    }
}

/// The applied values of one uninterrupted transition are monotonic
/// in the direction of the step's sign, and never pass the target.
pub proof fn lemma_applied_monotone(t: TransitionState, k1: int, k2: int)
    requires
        t.wf(),
        0 <= k1 <= k2 <= t.ticks_total,
    ensures
        t.diff() >= 0 ==> t.initial <= t.applied_at(k1) <= t.applied_at(k2) <= t.target,
        t.diff() < 0 ==> t.target <= t.applied_at(k2) <= t.applied_at(k1) <= t.initial,
{
    lemma_interp_monotone(t, k1, k2);
    lemma_interp_bounds(t, k1);
    lemma_interp_bounds(t, k2);
}

/// Preemption: a change accepted mid-transition resolves against the
/// volume interpolated at that moment — not against the old
/// transition's starting volume, nor its target — and the transition
/// it creates completes exactly at that resolved value.
pub proof fn lemma_preemption(
    c: Controller,
    change: VolumeChange,
    duration: Option<i64>,
    sampled: i64,
)
    requires
        c.wf(),
        c.transition is Some,
        bounded_change(change),
        0 <= sampled <= VOL_LIMIT,
    ensures
        c.transition matches Some(t) ==> {
            let fresh = next_transition(c, change, duration, sampled);
            &&& resolved_target(c, change, sampled) == clamp_target(
                collapse_spec(change, t.current_estimate()),
                c.config.clamp,
            )
            &&& fresh.applied_at(fresh.ticks_total as int) == resolved_target(c, change, sampled)
        },
{
    let t = c.transition->Some_0;
    let fresh = next_transition(c, change, duration, sampled);
    lemma_ticks_bounds(c.config, duration);
    if t.iteration > 0 {
        lemma_interp_bounds(t, t.iteration - 1);
    }
    assert(fresh.wf());
    lemma_interp_total(fresh);
}

/// Clamping enabled: an increase of at least the nominal full volume
/// drives any current volume to exactly the nominal full volume,
/// never above; every resolved target lies within the nominal range.
pub proof fn lemma_clamp_enabled(reference: int, delta: i64)
    requires
        0 <= reference,
    ensures
        delta >= VOL_UNIT ==> clamp_target(collapse_spec(VolumeChange::Increase(delta), reference), true) == VOL_UNIT,
        0 <= clamp_target(collapse_spec(VolumeChange::Increase(delta), reference), true) <= VOL_UNIT,
{
}

/// Clamping disabled: the same increase passes the nominal full
/// volume unclamped, up to the representable ceiling, while the floor
/// at silence still holds unconditionally.
pub proof fn lemma_clamp_disabled(reference: int, delta: i64)
    requires
        0 <= reference,
    ensures
        0 <= reference + delta <= VOL_LIMIT ==> clamp_target(
            collapse_spec(VolumeChange::Increase(delta), reference),
            false,
        ) == reference + delta,
        reference + delta < 0 ==> clamp_target(
            collapse_spec(VolumeChange::Increase(delta), reference),
            false,
        ) == 0,
        reference + delta > VOL_LIMIT ==> clamp_target(
            collapse_spec(VolumeChange::Increase(delta), reference),
            false,
        ) == VOL_LIMIT,
{
}

} // verus!
