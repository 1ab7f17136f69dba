//! Making one unit let go of the GPU.
//!
//! An eviction is a machine: [`Eviction::begin`] and [`Eviction::step`] take in
//! what happened and say what to do next; whoever runs it does that and comes
//! back.

use vstd::prelude::*;

use crate::classify::{proc_views, GpuComputeProc, GpuProcView};
use crate::config::{Config, ConfigView, ManagedUnit, UnitView};
use crate::gpu::{
    attribute_unit_vram, is_number, unit_vram, unit_vram_fits, GpuBackend, GpuMemory,
};
use crate::units::{
    is_systemd, EvictionOutcome, HookRun, Supervisor, UnitError, UnitErrorView,
};

verus! {

/// So little VRAM is in use that a tenant has let go.
pub open spec fn memory_free(mem: GpuMemory, cfg: ConfigView) -> bool {
    mem.used_mb < cfg.vram_free_threshold_mb
}

/// Whether so little VRAM is in use that a tenant has let go.
pub fn vram_is_free(mem: GpuMemory, cfg: &Config) -> (r: bool)
    ensures
        r == memory_free(mem, cfg@),
{
    mem.used_mb < cfg.vram_free_threshold_mb
}

/// What to do after a look at a unit that was stopped.
#[derive(Debug, Clone, Copy, PartialEq, Eq, Structural)]
pub enum EvictionStep {
    /// It has let go.
    Freed,
    /// It has had its time.
    Escalate,
    /// Look again.
    KeepWaiting,
}

/// What a look at a unit's VRAM shows.
#[derive(Debug, Clone, Copy, PartialEq, Eq, Structural)]
pub enum UnitVramReading {
    /// What the unit's own processes hold.
    Attributed(u64),
    /// What the whole GPU has in use, where it could be read.
    Fallback(Option<GpuMemory>),
    /// Nothing: this platform does not tell.
    Unavailable,
}

/// The look shows that the unit has let go. Where its own processes hold nothing, it
/// has, whatever the threshold.
pub open spec fn reading_free(reading: UnitVramReading, cfg: ConfigView) -> bool {
    match reading {
        UnitVramReading::Attributed(mb) => mb == 0 || mb < cfg.vram_free_threshold_mb,
        UnitVramReading::Fallback(Some(mem)) => memory_free(mem, cfg),
        UnitVramReading::Fallback(None) => false,
        UnitVramReading::Unavailable => false,
    }
}

/// A time in nanoseconds is at least a time in seconds.
pub open spec fn past(nanos: u64, secs: u64) -> bool {
    nanos >= secs * 1_000_000_000
}

fn is_past(nanos: u64, secs: u64) -> (r: bool)
    ensures
        r == past(nanos, secs),
{
    nanos as u128 >= secs as u128 * 1_000_000_000
}

/// What to do after a look, so many nanoseconds after the first.
pub open spec fn step_of(reading: UnitVramReading, elapsed: u64, cfg: ConfigView) -> EvictionStep {
    if reading_free(reading, cfg) {
        EvictionStep::Freed
    } else if past(elapsed, cfg.eviction_timeout_s) {
        EvictionStep::Escalate
    } else {
        EvictionStep::KeepWaiting
    }
}

/// What to do after a look, `elapsed` nanoseconds after the first.
pub fn eviction_step(reading: UnitVramReading, elapsed: u64, cfg: &Config) -> (r: EvictionStep)
    ensures
        r == step_of(reading, elapsed, cfg@),
{
    let freed: bool = match reading {
        UnitVramReading::Attributed(mb) => mb == 0 || mb < cfg.vram_free_threshold_mb,
        UnitVramReading::Fallback(Some(mem)) => vram_is_free(mem, cfg),
        UnitVramReading::Fallback(None) => false,
        UnitVramReading::Unavailable => false,
    };
    if freed {
        EvictionStep::Freed
    } else if is_past(elapsed, cfg.eviction_timeout_s) {
        EvictionStep::Escalate
    } else {
        EvictionStep::KeepWaiting
    }
}

/// A reading of the unit's own VRAM counts where it is not zero, or where one before it
/// was not.
pub open spec fn counts(attributed: Option<u64>, seen_nonzero: bool) -> bool {
    attributed is Some && (attributed->0 > 0 || seen_nonzero)
}

/// A reading of the unit's own VRAM counts where it is not zero, or where one
/// before it was not: else nothing shows that the unit can be seen at all.
pub fn attribution_is_trustworthy(attributed: Option<u64>, seen_nonzero: bool) -> (r: bool)
    ensures
        r == counts(attributed, seen_nonzero),
{
    match attributed {
        Some(mb) => mb > 0 || seen_nonzero,
        None => false,
    }
}

/// How long the stages of an eviction took, in nanoseconds.
#[derive(Debug, Clone, Copy, PartialEq, Eq, Default, Structural)]
pub struct EvictionTimings {
    /// The yield, where one was asked for.
    pub yield_nanos: Option<u64>,
    /// The stop, where it came to an end.
    pub stop_nanos: Option<u64>,
    /// All of it.
    pub total_nanos: u64,
}

/// Where an eviction stands: what it waits for.
#[derive(Debug, Clone, Copy, PartialEq, Eq, Structural)]
pub enum EvictionPhase {
    /// Whether the unit runs.
    Checking,
    /// The end of the yield command.
    Yielding,
    /// Whether the unit still has work.
    Releasing,
    /// The next look at whether it has.
    ReleaseWait,
    /// The end of the stop command.
    Stopping,
    /// Whether the unit still runs, where VRAM does not tell.
    PollRunning,
    /// The list of compute processes.
    PollCompute,
    /// The memory of the whole GPU.
    PollMemory,
    /// The next look at the VRAM.
    PollWait,
    /// Whether the unit still runs, past its time.
    Rechecking,
    /// The end of the kill command.
    Killing,
    /// Nothing.
    Done,
}

/// An eviction in progress. Instants are nanoseconds since it began.
#[derive(Debug, Clone, Copy, PartialEq, Eq, Structural)]
pub struct Eviction {
    /// What it waits for.
    pub phase: EvictionPhase,
    /// Whether the unit's own VRAM was ever seen to be more than zero.
    pub seen_nonzero: bool,
    /// When the yield was asked for.
    pub yield_from: u64,
    /// When the yield command had ended.
    pub budget_from: u64,
    /// When the stop was asked for.
    pub stop_from: u64,
    /// When the stop command had ended.
    pub poll_from: u64,
    /// How long the stages took.
    pub timings: EvictionTimings,
}

/// What an eviction can see.
#[derive(Debug, Clone, Copy, PartialEq, Eq, Structural)]
pub struct EvictionSight {
    /// The vendor.
    pub backend: GpuBackend,
    /// Whether the platform tells of VRAM at all.
    pub vram_readable: bool,
}

/// What an eviction wants done next.
#[derive(Debug, PartialEq, Eq)]
pub enum EvictionAction {
    /// Tell whether the unit runs.
    QueryRunning,
    /// Run the yield command.
    RunYield,
    /// Tell whether the unit has work.
    ProbeBusy,
    /// Wait for one poll interval.
    Sleep,
    /// Run the stop command.
    Stop,
    /// List the compute processes, with their units where `with_units`.
    QueryCompute {
        /// Whether the units are wanted.
        with_units: bool,
    },
    /// Read the memory of the whole GPU.
    QueryMemory,
    /// Run the kill command.
    Kill,
    /// Nothing: the eviction has ended.
    Finish(Result<EvictionOutcome, UnitError>),
}

/// The value of an [`EvictionAction`].
pub enum EvictionActionView {
    QueryRunning,
    RunYield,
    ProbeBusy,
    Sleep,
    Stop,
    QueryCompute { with_units: bool },
    QueryMemory,
    Kill,
    Finish(Result<EvictionOutcome, UnitErrorView>),
}

/// The value of the result of an eviction.
pub open spec fn result_view(r: Result<EvictionOutcome, UnitError>) -> Result<
    EvictionOutcome,
    UnitErrorView,
> {
    match r {
        Ok(o) => Ok(o),
        Err(e) => Err(e@),
    }
}

impl View for EvictionAction {
    type V = EvictionActionView;

    open spec fn view(&self) -> EvictionActionView {
        match self {
            EvictionAction::QueryRunning => EvictionActionView::QueryRunning,
            EvictionAction::RunYield => EvictionActionView::RunYield,
            EvictionAction::ProbeBusy => EvictionActionView::ProbeBusy,
            EvictionAction::Sleep => EvictionActionView::Sleep,
            EvictionAction::Stop => EvictionActionView::Stop,
            EvictionAction::QueryCompute { with_units } => EvictionActionView::QueryCompute {
                with_units: *with_units,
            },
            EvictionAction::QueryMemory => EvictionActionView::QueryMemory,
            EvictionAction::Kill => EvictionActionView::Kill,
            EvictionAction::Finish(r) => EvictionActionView::Finish(result_view(*r)),
        }
    }
}

/// What an eviction is told.
#[derive(Debug, PartialEq, Eq)]
pub enum EvictionEvent {
    /// Whether the unit runs.
    Running(Result<bool, UnitError>),
    /// The yield command has ended.
    YieldRan(HookRun),
    /// Whether the unit has work.
    Busy(bool),
    /// The interval is over.
    Slept,
    /// The stop command has ended.
    Stopped(Result<(), UnitError>),
    /// The compute processes, where they could be listed.
    Compute(Option<Vec<GpuComputeProc>>),
    /// The memory of the whole GPU, where it could be read.
    Memory(Option<GpuMemory>),
    /// The kill command has ended.
    Killed,
}

/// The value of an [`EvictionEvent`].
pub enum EvictionEventView {
    Running(Result<bool, UnitErrorView>),
    YieldRan(HookRun),
    Busy(bool),
    Slept,
    Stopped(Option<UnitErrorView>),
    Compute(Option<Seq<GpuProcView>>),
    Memory(Option<GpuMemory>),
    Killed,
}

impl View for EvictionEvent {
    type V = EvictionEventView;

    open spec fn view(&self) -> EvictionEventView {
        match self {
            EvictionEvent::Running(r) => EvictionEventView::Running(
                match r {
                    Ok(b) => Ok(*b),
                    Err(e) => Err(e@),
                },
            ),
            EvictionEvent::YieldRan(h) => EvictionEventView::YieldRan(*h),
            EvictionEvent::Busy(b) => EvictionEventView::Busy(*b),
            EvictionEvent::Slept => EvictionEventView::Slept,
            EvictionEvent::Stopped(r) => EvictionEventView::Stopped(
                match r {
                    Ok(_) => None,
                    Err(e) => Some(e@),
                },
            ),
            EvictionEvent::Compute(c) => EvictionEventView::Compute(
                match c {
                    Some(v) => Some(proc_views(v@)),
                    None => None,
                },
            ),
            EvictionEvent::Memory(m) => EvictionEventView::Memory(*m),
            EvictionEvent::Killed => EvictionEventView::Killed,
        }
    }
}

/// The eviction of a unit waits for such an event.
pub open spec fn awaits(phase: EvictionPhase, u: UnitView, ev: EvictionEventView) -> bool {
    match phase {
        EvictionPhase::Checking => ev is Running,
        EvictionPhase::Yielding => ev is YieldRan,
        EvictionPhase::Releasing => ev is Busy,
        EvictionPhase::ReleaseWait => ev is Slept,
        EvictionPhase::Stopping => ev is Stopped,
        EvictionPhase::PollRunning => ev is Running,
        EvictionPhase::PollCompute => ev is Compute && is_number(own_vram(u, ev->Compute_0)),
        EvictionPhase::PollMemory => ev is Memory,
        EvictionPhase::PollWait => ev is Slept,
        EvictionPhase::Rechecking => ev is Running,
        EvictionPhase::Killing => ev is Killed,
        EvictionPhase::Done => false,
    }
}

/// What a list of compute processes says of a unit's own VRAM.
pub open spec fn own_vram(u: UnitView, compute: Option<Seq<GpuProcView>>) -> Option<nat> {
    unit_vram(compute, is_systemd(u), u.unit, u.vram_match)
}

/// Whether an eviction of a unit can take in a list of compute processes: whether
/// what it says of the unit's own VRAM is a number.
pub fn compute_fits(u: &ManagedUnit, compute: &Option<Vec<GpuComputeProc>>) -> (r: bool)
    ensures
        r == is_number(
            own_vram(
                u@,
                match *compute {
                    Some(c) => Some(proc_views(c@)),
                    None => None,
                },
            ),
        ),
{
    let systemd: bool = matches!(Supervisor::resolve(u), Supervisor::Systemd);
    let procs: Option<&[GpuComputeProc]> = match compute {
        Some(v) => Some(v.as_slice()),
        None => None,
    };
    let needle: Option<&str> = match &u.vram_match {
        Some(s) => Some(s.as_str()),
        None => None,
    };
    unit_vram_fits(procs, systemd, u.unit.as_str(), needle)
}

/// The time from `from` to `now`, none where `now` is earlier.
pub open spec fn lapse(from: u64, now: u64) -> u64 {
    if now >= from {
        (now - from) as u64
    } else {
        0
    }
}

fn lapse_of(from: u64, now: u64) -> (r: u64)
    ensures
        r == lapse(from, now),
{
    if now >= from {
        now - from
    } else {
        0
    }
}

/// How long a unit's yield may take, in seconds.
pub open spec fn yield_budget(u: UnitView, cfg: ConfigView) -> u64 {
    match u.yield_timeout_s {
        Some(s) => s,
        None => cfg.yield_timeout_s,
    }
}

/// The list of compute processes can tell of this unit.
pub open spec fn attributable(u: UnitView) -> bool {
    is_systemd(u) || u.vram_match is Some
}

/// Stop the unit now.
pub open spec fn to_stop(e: Eviction, now: u64) -> (Eviction, EvictionActionView) {
    (
        Eviction { phase: EvictionPhase::Stopping, stop_from: now, ..e },
        EvictionActionView::Stop,
    )
}

/// End now, with the stop timed where one came to an end.
pub open spec fn finished(
    e: Eviction,
    stopped: bool,
    result: Result<EvictionOutcome, UnitErrorView>,
    now: u64,
) -> (Eviction, EvictionActionView) {
    (
        Eviction {
            phase: EvictionPhase::Done,
            timings: EvictionTimings {
                stop_nanos: if stopped {
                    Some(lapse(e.stop_from, now))
                } else {
                    e.timings.stop_nanos
                },
                total_nanos: now,
                ..e.timings
            },
            ..e
        },
        EvictionActionView::Finish(result),
    )
}

/// The yield timed as ended now.
pub open spec fn yield_timed(e: Eviction, now: u64) -> Eviction {
    Eviction {
        timings: EvictionTimings { yield_nanos: Some(lapse(e.yield_from, now)), ..e.timings },
        ..e
    }
}

/// Look at the unit.
pub open spec fn look(e: Eviction, u: UnitView, sight: EvictionSight) -> (
    Eviction,
    EvictionActionView,
) {
    if !sight.vram_readable {
        (
            Eviction { phase: EvictionPhase::PollRunning, ..e },
            EvictionActionView::QueryRunning,
        )
    } else if attributable(u) && sight.backend == GpuBackend::Nvidia {
        (
            Eviction { phase: EvictionPhase::PollCompute, ..e },
            EvictionActionView::QueryCompute { with_units: is_systemd(u) },
        )
    } else {
        (
            Eviction { phase: EvictionPhase::PollMemory, ..e },
            EvictionActionView::QueryMemory,
        )
    }
}

/// Act on a look.
pub open spec fn judged(
    e: Eviction,
    reading: UnitVramReading,
    cfg: ConfigView,
    now: u64,
) -> (Eviction, EvictionActionView) {
    match step_of(reading, lapse(e.poll_from, now), cfg) {
        EvictionStep::Freed => finished(e, true, Ok(EvictionOutcome::Freed), now),
        EvictionStep::Escalate => (
            Eviction { phase: EvictionPhase::Rechecking, ..e },
            EvictionActionView::QueryRunning,
        ),
        EvictionStep::KeepWaiting => (
            Eviction { phase: EvictionPhase::PollWait, ..e },
            EvictionActionView::Sleep,
        ),
    }
}

/// An eviction at its beginning: the first question is whether the unit runs.
pub open spec fn fresh_eviction() -> Eviction {
    Eviction {
        phase: EvictionPhase::Checking,
        seen_nonzero: false,
        yield_from: 0,
        budget_from: 0,
        stop_from: 0,
        poll_from: 0,
        timings: EvictionTimings { yield_nanos: None, stop_nanos: None, total_nanos: 0 },
    }
}

/// How an eviction goes on: first ask the unit to let go, where it can be asked
/// and watched; then stop it and watch its VRAM; past its time, kill it.
pub open spec fn evict_next(
    e: Eviction,
    u: UnitView,
    cfg: ConfigView,
    sight: EvictionSight,
    ev: EvictionEventView,
    now: u64,
) -> (Eviction, EvictionActionView) {
    match (e.phase, ev) {
        (EvictionPhase::Checking, EvictionEventView::Running(Err(x))) => finished(
            e,
            false,
            Err(x),
            now,
        ),
        (EvictionPhase::Checking, EvictionEventView::Running(Ok(running))) => if !running {
            finished(e, false, Ok(EvictionOutcome::AlreadyClear), now)
        } else if u.yield_cmd is None {
            to_stop(e, now)
        } else if u.busy_cmd is None {
            to_stop(yield_timed(Eviction { yield_from: now, ..e }, now), now)
        } else {
            (
                Eviction { phase: EvictionPhase::Yielding, yield_from: now, ..e },
                EvictionActionView::RunYield,
            )
        },
        (EvictionPhase::Yielding, EvictionEventView::YieldRan(HookRun::Success)) => (
            Eviction { phase: EvictionPhase::Releasing, budget_from: now, ..e },
            EvictionActionView::ProbeBusy,
        ),
        (EvictionPhase::Yielding, _) => to_stop(yield_timed(e, now), now),
        (EvictionPhase::Releasing, EvictionEventView::Busy(busy)) => if !busy {
            finished(yield_timed(e, now), false, Ok(EvictionOutcome::Yielded), now)
        } else if past(lapse(e.budget_from, now), yield_budget(u, cfg)) {
            to_stop(yield_timed(e, now), now)
        } else {
            (
                Eviction { phase: EvictionPhase::ReleaseWait, ..e },
                EvictionActionView::Sleep,
            )
        },
        (EvictionPhase::ReleaseWait, _) => (
            Eviction { phase: EvictionPhase::Releasing, ..e },
            EvictionActionView::ProbeBusy,
        ),
        (EvictionPhase::Stopping, EvictionEventView::Stopped(Some(x))) => finished(
            e,
            false,
            Err(x),
            now,
        ),
        (EvictionPhase::Stopping, _) => look(
            Eviction { poll_from: now, seen_nonzero: false, ..e },
            u,
            sight,
        ),
        (EvictionPhase::PollRunning, EvictionEventView::Running(r)) => if r == Ok::<
            bool,
            UnitErrorView,
        >(false) {
            finished(e, true, Ok(EvictionOutcome::Freed), now)
        } else {
            judged(e, UnitVramReading::Unavailable, cfg, now)
        },
        (EvictionPhase::PollCompute, EvictionEventView::Compute(c)) => {
            let mb = own_vram(u, c);
            if mb is Some && (mb->0 > 0 || e.seen_nonzero) {
                judged(
                    Eviction { seen_nonzero: e.seen_nonzero || mb->0 > 0, ..e },
                    UnitVramReading::Attributed(mb->0 as u64),
                    cfg,
                    now,
                )
            } else {
                (
                    Eviction { phase: EvictionPhase::PollMemory, ..e },
                    EvictionActionView::QueryMemory,
                )
            }
        },
        (EvictionPhase::PollMemory, EvictionEventView::Memory(m)) => judged(
            e,
            UnitVramReading::Fallback(m),
            cfg,
            now,
        ),
        (EvictionPhase::PollWait, _) => look(e, u, sight),
        (EvictionPhase::Rechecking, EvictionEventView::Running(r)) => if r == Ok::<
            bool,
            UnitErrorView,
        >(false) {
            finished(e, true, Ok(EvictionOutcome::Freed), now)
        } else {
            (
                Eviction { phase: EvictionPhase::Killing, ..e },
                EvictionActionView::Kill,
            )
        },
        (EvictionPhase::Killing, _) => finished(e, true, Ok(EvictionOutcome::Escalated), now),
        _ => (e, EvictionActionView::Sleep),
    }
}

impl Eviction {
    /// Begin an eviction.
    pub fn begin() -> (r: (Eviction, EvictionAction))
        ensures
            r.0 == fresh_eviction(),
            r.1@ == EvictionActionView::QueryRunning,
    {
        (
            Eviction {
                phase: EvictionPhase::Checking,
                seen_nonzero: false,
                yield_from: 0,
                budget_from: 0,
                stop_from: 0,
                poll_from: 0,
                timings: EvictionTimings { yield_nanos: None, stop_nanos: None, total_nanos: 0 },
            },
            EvictionAction::QueryRunning,
        )
    }

    fn stopping(self, now: u64) -> (r: (Eviction, EvictionAction))
        ensures
            (r.0, r.1@) == to_stop(self, now),
    {
        (
            Eviction { phase: EvictionPhase::Stopping, stop_from: now, ..self },
            EvictionAction::Stop,
        )
    }

    fn timed_yield(self, now: u64) -> (r: Eviction)
        ensures
            r == yield_timed(self, now),
    {
        let t = EvictionTimings {
            yield_nanos: Some(lapse_of(self.yield_from, now)),
            ..self.timings
        };
        Eviction { timings: t, ..self }
    }

    fn finish(
        self,
        stopped: bool,
        result: Result<EvictionOutcome, UnitError>,
        now: u64,
    ) -> (r: (Eviction, EvictionAction))
        ensures
            (r.0, r.1@) == finished(self, stopped, result_view(result), now),
    {
        let t = EvictionTimings {
            stop_nanos: if stopped {
                Some(lapse_of(self.stop_from, now))
            } else {
                self.timings.stop_nanos
            },
            total_nanos: now,
            ..self.timings
        };
        (
            Eviction { phase: EvictionPhase::Done, timings: t, ..self },
            EvictionAction::Finish(result),
        )
    }

    fn looking(self, u: &ManagedUnit, sight: EvictionSight) -> (r: (Eviction, EvictionAction))
        ensures
            (r.0, r.1@) == look(self, u@, sight),
    {
        let systemd: bool = matches!(Supervisor::resolve(u), Supervisor::Systemd);
        if !sight.vram_readable {
            (
                Eviction { phase: EvictionPhase::PollRunning, ..self },
                EvictionAction::QueryRunning,
            )
        } else if (systemd || u.vram_match.is_some()) && sight.backend.attribution_capable() {
            (
                Eviction { phase: EvictionPhase::PollCompute, ..self },
                EvictionAction::QueryCompute { with_units: systemd },
            )
        } else {
            (
                Eviction { phase: EvictionPhase::PollMemory, ..self },
                EvictionAction::QueryMemory,
            )
        }
    }

    fn judge(self, reading: UnitVramReading, cfg: &Config, now: u64) -> (r: (
        Eviction,
        EvictionAction,
    ))
        ensures
            (r.0, r.1@) == judged(self, reading, cfg@, now),
    {
        match eviction_step(reading, lapse_of(self.poll_from, now), cfg) {
            EvictionStep::Freed => self.finish(true, Ok(EvictionOutcome::Freed), now),
            EvictionStep::Escalate => (
                Eviction { phase: EvictionPhase::Rechecking, ..self },
                EvictionAction::QueryRunning,
            ),
            EvictionStep::KeepWaiting => (
                Eviction { phase: EvictionPhase::PollWait, ..self },
                EvictionAction::Sleep,
            ),
        }
    }

    /// Go on with an eviction: take in what it waited for, at `now`, and say what
    /// it wants done next.
    pub fn step(
        self,
        u: &ManagedUnit,
        cfg: &Config,
        sight: EvictionSight,
        ev: EvictionEvent,
        now: u64,
    ) -> (r: (Eviction, EvictionAction))
        requires
            awaits(self.phase, u@, ev@),
        ensures
            (r.0, r.1@) == evict_next(self, u@, cfg@, sight, ev@, now),
    {
        match ev {
            EvictionEvent::Running(res) => match self.phase {
                EvictionPhase::Checking => match res {
                    Err(x) => self.finish(false, Err(x), now),
                    Ok(running) => if !running {
                        self.finish(false, Ok(EvictionOutcome::AlreadyClear), now)
                    } else if u.yield_cmd.is_none() {
                        self.stopping(now)
                    } else if u.busy_cmd.is_none() {
                        let asked = Eviction { yield_from: now, ..self };
                        asked.timed_yield(now).stopping(now)
                    } else {
                        (
                            Eviction { phase: EvictionPhase::Yielding, yield_from: now, ..self },
                            EvictionAction::RunYield,
                        )
                    },
                },
                EvictionPhase::PollRunning => match res {
                    Ok(false) => self.finish(true, Ok(EvictionOutcome::Freed), now),
                    _ => self.judge(UnitVramReading::Unavailable, cfg, now),
                },
                _ => match res {
                    Ok(false) => self.finish(true, Ok(EvictionOutcome::Freed), now),
                    _ => (
                        Eviction { phase: EvictionPhase::Killing, ..self },
                        EvictionAction::Kill,
                    ),
                },
            },
            EvictionEvent::YieldRan(h) => match h {
                HookRun::Success => (
                    Eviction { phase: EvictionPhase::Releasing, budget_from: now, ..self },
                    EvictionAction::ProbeBusy,
                ),
                HookRun::Failed(_) => self.timed_yield(now).stopping(now),
            },
            EvictionEvent::Busy(busy) => if !busy {
                self.timed_yield(now).finish(false, Ok(EvictionOutcome::Yielded), now)
            } else {
                let budget: u64 = match u.yield_timeout_s {
                    Some(s) => s,
                    None => cfg.yield_timeout_s,
                };
                if is_past(lapse_of(self.budget_from, now), budget) {
                    self.timed_yield(now).stopping(now)
                } else {
                    (
                        Eviction { phase: EvictionPhase::ReleaseWait, ..self },
                        EvictionAction::Sleep,
                    )
                }
            },
            EvictionEvent::Slept => match self.phase {
                EvictionPhase::ReleaseWait => (
                    Eviction { phase: EvictionPhase::Releasing, ..self },
                    EvictionAction::ProbeBusy,
                ),
                _ => self.looking(u, sight),
            },
            EvictionEvent::Stopped(res) => match res {
                Err(x) => self.finish(false, Err(x), now),
                Ok(_) => {
                    let polled = Eviction { poll_from: now, seen_nonzero: false, ..self };
                    polled.looking(u, sight)
                },
            },
            EvictionEvent::Compute(c) => {
                let systemd: bool = matches!(Supervisor::resolve(u), Supervisor::Systemd);
                let procs: Option<&[GpuComputeProc]> = match &c {
                    Some(v) => Some(v.as_slice()),
                    None => None,
                };
                let needle: Option<&str> = match &u.vram_match {
                    Some(s) => Some(s.as_str()),
                    None => None,
                };
                let attributed = attribute_unit_vram(procs, systemd, u.unit.as_str(), needle);
                if attribution_is_trustworthy(attributed, self.seen_nonzero) {
                    let mb: u64 = attributed.unwrap();
                    let seen = Eviction { seen_nonzero: self.seen_nonzero || mb > 0, ..self };
                    seen.judge(UnitVramReading::Attributed(mb), cfg, now)
                } else {
                    (
                        Eviction { phase: EvictionPhase::PollMemory, ..self },
                        EvictionAction::QueryMemory,
                    )
                }
            },
            EvictionEvent::Memory(m) => self.judge(UnitVramReading::Fallback(m), cfg, now),
            EvictionEvent::Killed => self.finish(true, Ok(EvictionOutcome::Escalated), now),
        }
    }
}

// ── laws ───────────────────────────────────────────────────────────────────

/// Through an eviction holds: it asks a unit to let go, and waits for that, only
/// where the unit can be asked and its work watched.
pub open spec fn eviction_wf(e: Eviction, u: UnitView) -> bool {
    (e.phase == EvictionPhase::Yielding || e.phase == EvictionPhase::Releasing || e.phase
        == EvictionPhase::ReleaseWait) ==> u.yield_cmd is Some && u.busy_cmd is Some
}

/// An eviction begins so and every step keeps it so.
pub proof fn eviction_stays_wf(
    e: Eviction,
    u: UnitView,
    cfg: ConfigView,
    sight: EvictionSight,
    ev: EvictionEventView,
    now: u64,
)
    requires
        eviction_wf(e, u),
        awaits(e.phase, u, ev),
    ensures
        eviction_wf(fresh_eviction(), u),
        eviction_wf(evict_next(e, u, cfg, sight, ev, now).0, u),
{
}

/// A unit is said to have let go of its own accord only where it was asked, has a
/// probe, and the probe says that it has no work. Without a probe it is not even
/// asked.
pub proof fn yield_needs_a_probe(
    e: Eviction,
    u: UnitView,
    cfg: ConfigView,
    sight: EvictionSight,
    ev: EvictionEventView,
    now: u64,
)
    requires
        eviction_wf(e, u),
        awaits(e.phase, u, ev),
    ensures
        evict_next(e, u, cfg, sight, ev, now).1 is RunYield ==> u.busy_cmd is Some,
        evict_next(e, u, cfg, sight, ev, now).1 == EvictionActionView::Finish(
            Ok(EvictionOutcome::Yielded),
        ) ==> u.yield_cmd is Some && u.busy_cmd is Some && ev == EvictionEventView::Busy(false),
{
}

/// A unit is said to be freed only where a look showed it: no VRAM or little enough
/// of its own, after it had been seen to hold some; little enough on the whole GPU;
/// or that the unit no longer runs. A look that failed frees nothing.
pub proof fn freed_is_seen(
    e: Eviction,
    u: UnitView,
    cfg: ConfigView,
    sight: EvictionSight,
    ev: EvictionEventView,
    now: u64,
)
    requires
        awaits(e.phase, u, ev),
        evict_next(e, u, cfg, sight, ev, now).1 == EvictionActionView::Finish(
            Ok(EvictionOutcome::Freed),
        ),
    ensures
        match ev {
            EvictionEventView::Running(r) => r == Ok::<bool, UnitErrorView>(false),
            EvictionEventView::Memory(m) => m is Some && m->0.used_mb < cfg.vram_free_threshold_mb,
            EvictionEventView::Compute(c) => {
                let mb = own_vram(u, c);
                mb is Some && (mb->0 > 0 || e.seen_nonzero) && (mb->0 == 0 || (mb->0 as u64)
                    < cfg.vram_free_threshold_mb)
            },
            _ => false,
        },
{
}

/// A zero reading before any other is not taken for a freed unit: the whole GPU
/// is asked instead.
pub proof fn unproven_zero_is_not_trusted(
    e: Eviction,
    u: UnitView,
    cfg: ConfigView,
    sight: EvictionSight,
    c: Option<Seq<GpuProcView>>,
    now: u64,
)
    requires
        e.phase == EvictionPhase::PollCompute,
        !e.seen_nonzero,
        own_vram(u, c) == Some(0nat),
    ensures
        evict_next(e, u, cfg, sight, EvictionEventView::Compute(c), now).1
            == EvictionActionView::QueryMemory,
{
}

/// What was seen stays seen until the eviction ends or stops the unit anew.
pub proof fn seen_stays_seen(
    e: Eviction,
    u: UnitView,
    cfg: ConfigView,
    sight: EvictionSight,
    ev: EvictionEventView,
    now: u64,
)
    requires
        awaits(e.phase, u, ev),
        e.seen_nonzero,
        e.phase != EvictionPhase::Stopping,
    ensures
        evict_next(e, u, cfg, sight, ev, now).0.seen_nonzero,
{
}

/// A unit is killed only after it was stopped, its time was over and it was not
/// found stopped: the kill follows a second question whether it runs, which
/// follows a look past the limit.
pub proof fn kill_comes_last(
    e: Eviction,
    u: UnitView,
    cfg: ConfigView,
    sight: EvictionSight,
    ev: EvictionEventView,
    now: u64,
)
    requires
        awaits(e.phase, u, ev),
    ensures
        evict_next(e, u, cfg, sight, ev, now).1 is Kill ==> e.phase == EvictionPhase::Rechecking && ev
            != EvictionEventView::Running(Ok(false)),
        evict_next(e, u, cfg, sight, ev, now).0.phase == EvictionPhase::Rechecking ==> past(
            lapse(e.poll_from, now),
            cfg.eviction_timeout_s,
        ),
{
}

/// Past its time a stopped unit is not waited for: whatever a look shows, the
/// eviction does not sleep again.
pub proof fn eviction_does_not_stall(
    e: Eviction,
    reading: UnitVramReading,
    cfg: ConfigView,
    now: u64,
)
    requires
        past(lapse(e.poll_from, now), cfg.eviction_timeout_s),
    ensures
        !(judged(e, reading, cfg, now).1 is Sleep),
{
}

/// A freed unit is freed also where its time is over.
pub proof fn freed_wins_over_the_limit(reading: UnitVramReading, elapsed: u64, cfg: ConfigView)
    requires
        reading_free(reading, cfg),
    ensures
        step_of(reading, elapsed, cfg) == EvictionStep::Freed,
{
}

/// A unit that does not let go in the time it was given is stopped: past that time
/// the eviction does not sleep again either.
pub proof fn yield_does_not_stall(
    e: Eviction,
    u: UnitView,
    cfg: ConfigView,
    sight: EvictionSight,
    now: u64,
)
    requires
        e.phase == EvictionPhase::Releasing,
        past(lapse(e.budget_from, now), yield_budget(u, cfg)),
    ensures
        evict_next(e, u, cfg, sight, EvictionEventView::Busy(true), now).1
            == EvictionActionView::Stop,
{
}

/// A yield that fails does not stop the eviction: the unit is stopped.
pub proof fn failed_yield_is_followed_by_a_stop(
    e: Eviction,
    u: UnitView,
    cfg: ConfigView,
    sight: EvictionSight,
    failure: crate::units::HookFailure,
    now: u64,
)
    requires
        e.phase == EvictionPhase::Yielding,
    ensures
        evict_next(
            e,
            u,
            cfg,
            sight,
            EvictionEventView::YieldRan(HookRun::Failed(failure)),
            now,
        ).1 == EvictionActionView::Stop,
{
}

/// Past its time, a unit that is not found stopped is killed, also where it could not
/// be told whether it runs; and only one that was killed is said to have been.
pub proof fn unit_that_stays_up_is_killed(
    e: Eviction,
    u: UnitView,
    cfg: ConfigView,
    sight: EvictionSight,
    ev: EvictionEventView,
    now: u64,
)
    requires
        awaits(e.phase, u, ev),
    ensures
        e.phase == EvictionPhase::Rechecking && ev != EvictionEventView::Running(Ok(false))
            ==> evict_next(e, u, cfg, sight, ev, now).1 == EvictionActionView::Kill,
        e.phase == EvictionPhase::Rechecking && ev == EvictionEventView::Running(Ok(false))
            ==> evict_next(e, u, cfg, sight, ev, now).1 == EvictionActionView::Finish(
            Ok(EvictionOutcome::Freed),
        ),
        evict_next(e, u, cfg, sight, ev, now).1 == EvictionActionView::Finish(
            Ok(EvictionOutcome::Escalated),
        ) <==> ev is Killed,
{
}

/// A look at a stopped unit, so many nanoseconds after the stop: it has let go where
/// its own processes hold nothing, or less than the threshold; or, where only the
/// whole GPU is known, where that has less than the threshold in use. Else it is
/// waited for until the timeout, in seconds, is over.
pub proof fn threshold_and_timeout_decide(reading: UnitVramReading, elapsed: u64, cfg: ConfigView)
    ensures
        step_of(reading, elapsed, cfg) == EvictionStep::Freed <==> match reading {
            UnitVramReading::Attributed(mb) => mb == 0 || mb < cfg.vram_free_threshold_mb,
            UnitVramReading::Fallback(m) => m is Some && m->0.used_mb < cfg.vram_free_threshold_mb,
            UnitVramReading::Unavailable => false,
        },
        step_of(reading, elapsed, cfg) == EvictionStep::KeepWaiting ==> elapsed
            < cfg.eviction_timeout_s * 1_000_000_000,
        step_of(reading, elapsed, cfg) == EvictionStep::Escalate ==> elapsed
            >= cfg.eviction_timeout_s * 1_000_000_000,
{
}

/// Less VRAM never makes a unit that has let go one that has not.
pub proof fn less_vram_is_no_less_free(
    a: u64,
    b: u64,
    total: u64,
    elapsed: u64,
    cfg: ConfigView,
)
    requires
        a <= b,
    ensures
        step_of(UnitVramReading::Attributed(b), elapsed, cfg) == EvictionStep::Freed ==> step_of(
            UnitVramReading::Attributed(a),
            elapsed,
            cfg,
        ) == EvictionStep::Freed,
        step_of(
            UnitVramReading::Fallback(Some(GpuMemory { used_mb: b, total_mb: total })),
            elapsed,
            cfg,
        ) == EvictionStep::Freed ==> step_of(
            UnitVramReading::Fallback(Some(GpuMemory { used_mb: a, total_mb: total })),
            elapsed,
            cfg,
        ) == EvictionStep::Freed,
{
}

/// A unit that does not run is left alone. One that runs is asked to yield where it
/// can be asked and watched, and is stopped at once where not.
pub proof fn running_unit_is_asked_first(
    u: UnitView,
    cfg: ConfigView,
    sight: EvictionSight,
    running: bool,
    now: u64,
)
    ensures
        ({
            let ev = EvictionEventView::Running(Ok(running));
            let n = evict_next(fresh_eviction(), u, cfg, sight, ev, now);
            &&& !running ==> n.1 == EvictionActionView::Finish(Ok(EvictionOutcome::AlreadyClear))
            &&& running && u.yield_cmd is Some && u.busy_cmd is Some ==> n.1
                == EvictionActionView::RunYield
            &&& running && (u.yield_cmd is None || u.busy_cmd is None) ==> n.1
                == EvictionActionView::Stop
        }),
{
}

/// A unit that was asked to yield and has no work any more is left up. One that has
/// is looked at again until the time that it, or else the configuration, gives it in
/// seconds is over; that time begins when the yield command has ended. Then it is
/// stopped.
pub proof fn yield_is_waited_for(
    e: Eviction,
    u: UnitView,
    cfg: ConfigView,
    sight: EvictionSight,
    now: u64,
)
    ensures
        e.phase == EvictionPhase::Yielding ==> {
            let n = evict_next(e, u, cfg, sight, EvictionEventView::YieldRan(HookRun::Success), now);
            n.1 == EvictionActionView::ProbeBusy && n.0.budget_from == now && n.0.phase
                == EvictionPhase::Releasing
        },
        e.phase == EvictionPhase::Releasing ==> evict_next(
            e,
            u,
            cfg,
            sight,
            EvictionEventView::Busy(false),
            now,
        ).1 == EvictionActionView::Finish(Ok(EvictionOutcome::Yielded)),
        e.phase == EvictionPhase::Releasing && now >= e.budget_from ==> {
            let n = evict_next(e, u, cfg, sight, EvictionEventView::Busy(true), now);
            let limit: int = if u.yield_timeout_s is Some {
                u.yield_timeout_s->0 as int
            } else {
                cfg.yield_timeout_s as int
            };
            &&& now - e.budget_from < limit * 1_000_000_000 ==> n.1 == EvictionActionView::Sleep
                && n.0.budget_from == e.budget_from && n.0.phase == EvictionPhase::ReleaseWait
            &&& now - e.budget_from >= limit * 1_000_000_000 ==> n.1 == EvictionActionView::Stop
        },
        e.phase == EvictionPhase::ReleaseWait ==> {
            let n = evict_next(e, u, cfg, sight, EvictionEventView::Slept, now);
            n.1 == EvictionActionView::ProbeBusy && n.0.budget_from == e.budget_from && n.0.phase
                == EvictionPhase::Releasing
        },
{
}

/// After the stop, and after every wait, the unit is looked at: where VRAM cannot be
/// told, whether it runs; by the list of compute processes, where the vendor has one
/// and the unit can be found in it; else by the memory of the whole GPU. The clock
/// starts when the stop command has ended and runs on from look to look.
pub proof fn stopped_unit_is_looked_at(
    e: Eviction,
    u: UnitView,
    cfg: ConfigView,
    sight: EvictionSight,
    now: u64,
)
    requires
        e.phase == EvictionPhase::Stopping || e.phase == EvictionPhase::PollWait,
    ensures
        ({
            let ev = if e.phase == EvictionPhase::Stopping {
                EvictionEventView::Stopped(None)
            } else {
                EvictionEventView::Slept
            };
            let n = evict_next(e, u, cfg, sight, ev, now);
            let by_list = (is_systemd(u) || u.vram_match is Some) && sight.backend
                == GpuBackend::Nvidia;
            &&& !sight.vram_readable ==> n.1 == EvictionActionView::QueryRunning && n.0.phase
                == EvictionPhase::PollRunning
            &&& sight.vram_readable && by_list ==> n.1 == EvictionActionView::QueryCompute {
                with_units: is_systemd(u),
            }
            &&& sight.vram_readable && !by_list ==> n.1 == EvictionActionView::QueryMemory
            &&& n.0.poll_from == (if e.phase == EvictionPhase::Stopping {
                now
            } else {
                e.poll_from
            })
            &&& e.phase == EvictionPhase::Stopping ==> !n.0.seen_nonzero
        }),
{
}

/// What a look shows is acted on. Where the list of compute processes shows nothing
/// of the unit, or was not had, the whole GPU is asked. A unit that has not let go is
/// waited for within the timeout and asked again whether it runs past it.
pub proof fn look_is_acted_on(
    e: Eviction,
    u: UnitView,
    cfg: ConfigView,
    sight: EvictionSight,
    ev: EvictionEventView,
    now: u64,
)
    requires
        awaits(e.phase, u, ev),
        now >= e.poll_from,
        e.phase == EvictionPhase::PollRunning || e.phase == EvictionPhase::PollCompute || e.phase
            == EvictionPhase::PollMemory,
    ensures
        ({
            let n = evict_next(e, u, cfg, sight, ev, now);
            let over = now - e.poll_from >= cfg.eviction_timeout_s * 1_000_000_000;
            let freed = n.1 == EvictionActionView::Finish(Ok(EvictionOutcome::Freed));
            let waits = if over {
                n.1 == EvictionActionView::QueryRunning && n.0.phase == EvictionPhase::Rechecking
            } else {
                n.1 == EvictionActionView::Sleep && n.0.phase == EvictionPhase::PollWait
            };
            &&& n.0.poll_from == e.poll_from
            &&& match ev {
                EvictionEventView::Running(r) => if r == Ok::<bool, UnitErrorView>(false) {
                    freed
                } else {
                    waits
                },
                EvictionEventView::Memory(m) => if m is Some && m->0.used_mb
                    < cfg.vram_free_threshold_mb {
                    freed
                } else {
                    waits
                },
                EvictionEventView::Compute(c) => {
                    let mb = own_vram(u, c);
                    if mb is None || (mb->0 == 0 && !e.seen_nonzero) {
                        n.1 == EvictionActionView::QueryMemory && n.0.seen_nonzero == e.seen_nonzero
                    } else if mb->0 == 0 || mb->0 < cfg.vram_free_threshold_mb {
                        freed
                    } else {
                        waits && n.0.seen_nonzero
                    }
                },
                _ => true,
            }
        }),
{
}

/// A unit whose running could not be told at first, or whose stop failed, ends the
/// eviction with that error.
pub proof fn error_ends_the_eviction(
    e: Eviction,
    u: UnitView,
    cfg: ConfigView,
    sight: EvictionSight,
    x: UnitErrorView,
    now: u64,
)
    ensures
        e.phase == EvictionPhase::Checking ==> evict_next(
            e,
            u,
            cfg,
            sight,
            EvictionEventView::Running(Err(x)),
            now,
        ).1 == EvictionActionView::Finish(Err(x)),
        e.phase == EvictionPhase::Stopping ==> evict_next(
            e,
            u,
            cfg,
            sight,
            EvictionEventView::Stopped(Some(x)),
            now,
        ).1 == EvictionActionView::Finish(Err(x)),
{
}

/// The times of an eviction: all of it is timed to its end; the yield from when it
/// was asked for to when the unit was stopped or had let go; the stop from when it was
/// asked for, where it came to freed or killed, and else not at all.
pub proof fn stages_are_timed(
    e: Eviction,
    u: UnitView,
    cfg: ConfigView,
    sight: EvictionSight,
    ev: EvictionEventView,
    now: u64,
)
    requires
        awaits(e.phase, u, ev),
        now >= e.yield_from,
        now >= e.stop_from,
    ensures
        ({
            let n = evict_next(e, u, cfg, sight, ev, now);
            let asked = e.phase == EvictionPhase::Yielding || e.phase == EvictionPhase::Releasing;
            &&& n.1 is Finish ==> n.0.timings.total_nanos == now
            &&& n.1 == EvictionActionView::Stop ==> n.0.stop_from == now
            &&& n.1 == EvictionActionView::RunYield ==> n.0.yield_from == now
            &&& !(n.1 is Stop) ==> n.0.stop_from == e.stop_from
            &&& asked && (n.1 is Stop || n.1 is Finish) ==> n.0.timings.yield_nanos == Some(
                (now - e.yield_from) as u64,
            )
            &&& !asked && !(e.phase == EvictionPhase::Checking && u.yield_cmd is Some)
                ==> n.0.timings.yield_nanos == e.timings.yield_nanos
            &&& n.1 == EvictionActionView::Finish(Ok(EvictionOutcome::Freed)) || n.1
                == EvictionActionView::Finish(Ok(EvictionOutcome::Escalated))
                ==> n.0.timings.stop_nanos == Some((now - e.stop_from) as u64)
            &&& !(n.1 == EvictionActionView::Finish(Ok(EvictionOutcome::Freed)) || n.1
                == EvictionActionView::Finish(Ok(EvictionOutcome::Escalated)))
                ==> n.0.timings.stop_nanos == e.timings.stop_nanos
        }),
{
}

/// A zero counts only where the unit was seen to hold something before; what is more than
/// zero always counts; and nothing never does.
pub proof fn zero_counts_only_after_more(mb: u64, seen: bool)
    ensures
        !counts(None, seen),
        counts(Some(0), seen) <==> seen,
        mb > 0 ==> counts(Some(mb), seen),
{
}

} // verus!
