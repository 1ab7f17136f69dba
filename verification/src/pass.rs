//! One pass: observe, decide, and drive the managed units to match.
//!
//! A pass is a machine: [`Pass::begin`] and [`Pass::step`] take in what happened
//! and say what to do next; whoever runs it does that and comes back.

use vstd::prelude::*;

use crate::config::{Config, ConfigView, ManagedUnit};
use crate::ladder::{
    action_of, below, demand_of, effective_demand, ensure_running_targets,
    ensure_running_toctou_clear, lemma_below, lemma_wanted, preempted_positions, priorities,
    targets_of, unit_action, wanted_up, UnitAction,
};
use crate::metrics::{EvictionStage, Metrics, MetricsView};
use crate::observe::{claim_set, claims_of, ObservationView, ProcSnapshot};
use crate::state::{
    claim_views, ArbiterState, Claim, ClaimView, ManualActionError, ReconcileTrigger, State,
    StateView, UnixTime,
};
use crate::units::{
    eviction_metric_outcome, find_unit, metric_of, unit_index, EvictionOutcome, EvictionTimings,
    UnitError,
};

verus! {

// ── counting an eviction ───────────────────────────────────────────────────

/// The counters after an eviction: its outcome and, unless there was nothing to
/// evict, how long its stages took.
pub open spec fn eviction_counted<E>(
    m: MetricsView,
    unit: Seq<char>,
    result: Result<EvictionOutcome, E>,
    t: EvictionTimings,
) -> MetricsView {
    match metric_of(result) {
        None => m,
        Some(outcome) => {
            let m1 = m.with_eviction(unit, outcome);
            let m2 = match t.yield_nanos {
                Some(n) => m1.with_duration(unit, EvictionStage::Yield, n),
                None => m1,
            };
            let m3 = match t.stop_nanos {
                Some(n) => m2.with_duration(unit, EvictionStage::Stop, n),
                None => m2,
            };
            m3.with_duration(unit, EvictionStage::Total, t.total_nanos)
        },
    }
}

fn count_eviction(
    m: &mut Metrics,
    unit: &str,
    result: &Result<EvictionOutcome, UnitError>,
    t: EvictionTimings,
)
    requires
        old(m).wf(),
        old(m)@.has_room(),
    ensures
        final(m).wf(),
        final(m)@ == eviction_counted(old(m)@, unit@, *result, t),
{
    let ghost m0 = m@;
    proof {
        assert(crate::metrics::counts_have_room(m0.evictions_of(unit@)));
        assert forall|s: EvictionStage|
            (#[trigger] m0.durations_of(unit@).stage(s)) is Some implies m0.durations_of(
            unit@,
        ).stage(s)->0.count < u64::MAX by {
            if m0.durations.dom().contains(unit@) {
                assert(m0.durations[unit@].stage(s) is Some);
            }
        }
    }
    match eviction_metric_outcome(result) {
        None => {},
        Some(outcome) => {
            m.record_eviction(unit, outcome);
            if let Some(n) = t.yield_nanos {
                m.record_eviction_duration(unit, EvictionStage::Yield, n);
            }
            proof {
                assert(m@.durations_of(unit@).stage(EvictionStage::Stop) == m0.durations_of(
                    unit@,
                ).stage(EvictionStage::Stop));
                assert(m@.durations_of(unit@).stage(EvictionStage::Total) == m0.durations_of(
                    unit@,
                ).stage(EvictionStage::Total));
            }
            if let Some(n) = t.stop_nanos {
                m.record_eviction_duration(unit, EvictionStage::Stop, n);
            }
            proof {
                assert(m@.durations_of(unit@).stage(EvictionStage::Total) == m0.durations_of(
                    unit@,
                ).stage(EvictionStage::Total));
            }
            m.record_eviction_duration(unit, EvictionStage::Total, t.total_nanos);
        },
    }
}

// ── the pass ───────────────────────────────────────────────────────────────

/// Where a pass stands: what it waits for.
#[derive(Debug, Clone, Copy, PartialEq, Eq, Structural)]
pub enum PassPhase {
    /// The end of a start that an operator asked for.
    ManualStart,
    /// The end of a stop that an operator asked for.
    ManualStop,
    /// That the operator was answered.
    Replied,
    /// The observation.
    Observing,
    /// Whether the unit at `pos` has work.
    Probing,
    /// The end of the eviction at `pos`, for a game.
    EvictingForGame,
    /// Whether the preempted unit at `pos` runs.
    CheckingPreempted,
    /// The end of the eviction at `pos`, for a higher tier.
    Preempting,
    /// The end of the resume at `pos`.
    Resuming,
    /// Whether the unit at `pos` runs.
    CheckingTarget,
    /// The second observation.
    Reobserving,
    /// The end of the start at `pos`.
    Starting,
    /// That the units' statuses were read.
    Refreshing,
    /// Nothing.
    Done,
}

/// A pass in progress.
#[derive(Debug)]
pub struct Pass {
    /// What it waits for.
    pub phase: PassPhase,
    /// The unit that an operator named.
    pub unit: String,
    /// The claims that were observed.
    pub claims: Vec<Claim>,
    /// The state that they call for.
    pub desired: State,
    /// The units that have work.
    pub busy: Vec<usize>,
    /// The units that may not run.
    pub preempted: Vec<usize>,
    /// The units that are gone through.
    pub list: Vec<usize>,
    /// How far.
    pub pos: usize,
    /// The units picked on the way.
    pub picked: Vec<usize>,
    /// Whether an eviction has failed.
    pub failed: bool,
}

/// The value of a [`Pass`].
pub struct PassView {
    pub phase: PassPhase,
    pub unit: Seq<char>,
    pub claims: Seq<ClaimView>,
    pub desired: State,
    pub busy: Seq<usize>,
    pub preempted: Seq<usize>,
    pub list: Seq<usize>,
    pub pos: usize,
    pub picked: Seq<usize>,
    pub failed: bool,
}

impl View for Pass {
    type V = PassView;

    open spec fn view(&self) -> PassView {
        PassView {
            phase: self.phase,
            unit: self.unit@,
            claims: claim_views(self.claims@),
            desired: self.desired,
            busy: self.busy@,
            preempted: self.preempted@,
            list: self.list@,
            pos: self.pos,
            picked: self.picked@,
            failed: self.failed,
        }
    }
}

/// What a pass wants done next. Units are named by their positions.
#[derive(Debug, Clone, Copy, PartialEq, Eq)]
pub enum PassAction {
    /// Answer the operator.
    Reply(Result<(), ManualActionError>),
    /// Start a unit.
    StartUnit(usize),
    /// Evict a unit.
    EvictUnit(usize),
    /// Observe the processes.
    Observe,
    /// Tell whether a unit has work.
    ProbeBusy(usize),
    /// Tell whether a unit runs.
    QueryRunning(usize),
    /// Take a yield of a unit back.
    Resume(usize),
    /// Read the units' statuses.
    Refresh,
    /// Nothing: the pass has ended.
    Finish,
    /// Nothing: the pass could not observe and has given up.
    GiveUp,
}

/// What a pass is told.
#[derive(Debug, PartialEq, Eq)]
pub enum PassEvent {
    /// Whether the start succeeded.
    Started(bool),
    /// How the eviction ended, and how long it took.
    Evicted(Result<EvictionOutcome, UnitError>, EvictionTimings),
    /// The operator was answered.
    Replied,
    /// The observation.
    Observed(ProcSnapshot),
    /// The observation failed.
    ObserveFailed,
    /// Whether the unit has work.
    Busy(bool),
    /// Whether the unit runs; nothing where that could not be told.
    Running(Option<bool>),
    /// The yield was taken back.
    Resumed,
    /// The statuses were read.
    Refreshed,
}

/// The value of a [`PassEvent`].
pub enum PassEventView {
    Started(bool),
    Evicted(Result<EvictionOutcome, ()>, EvictionTimings),
    Replied,
    Observed(ObservationView),
    ObserveFailed,
    Busy(bool),
    Running(Option<bool>),
    Resumed,
    Refreshed,
}

/// The result of an eviction without what the error says.
pub open spec fn plain_result(r: Result<EvictionOutcome, UnitError>) -> Result<EvictionOutcome, ()> {
    match r {
        Ok(o) => Ok(o),
        Err(_) => Err(()),
    }
}

impl View for PassEvent {
    type V = PassEventView;

    open spec fn view(&self) -> PassEventView {
        match self {
            PassEvent::Started(b) => PassEventView::Started(*b),
            PassEvent::Evicted(r, t) => PassEventView::Evicted(plain_result(*r), *t),
            PassEvent::Replied => PassEventView::Replied,
            PassEvent::Observed(o) => PassEventView::Observed(o@),
            PassEvent::ObserveFailed => PassEventView::ObserveFailed,
            PassEvent::Busy(b) => PassEventView::Busy(*b),
            PassEvent::Running(r) => PassEventView::Running(*r),
            PassEvent::Resumed => PassEventView::Resumed,
            PassEvent::Refreshed => PassEventView::Refreshed,
        }
    }
}

/// The pass waits for such an event.
pub open spec fn pass_awaits(phase: PassPhase, ev: PassEventView) -> bool {
    match phase {
        PassPhase::ManualStart => ev is Started,
        PassPhase::ManualStop => ev is Evicted,
        PassPhase::Replied => ev is Replied,
        PassPhase::Observing => ev is Observed || ev is ObserveFailed,
        PassPhase::Probing => ev is Busy,
        PassPhase::EvictingForGame => ev is Evicted,
        PassPhase::CheckingPreempted => ev is Running,
        PassPhase::Preempting => ev is Evicted,
        PassPhase::Resuming => ev is Resumed,
        PassPhase::CheckingTarget => ev is Running,
        PassPhase::Reobserving => ev is Observed || ev is ObserveFailed,
        PassPhase::Starting => ev is Started,
        PassPhase::Refreshing => ev is Refreshed,
        PassPhase::Done => false,
    }
}

/// The name of a unit.
pub open spec fn name_at(cfg: ConfigView, i: usize) -> Seq<char> {
    cfg.units[i as int].unit
}

/// The priorities of the units at some positions.
pub open spec fn priorities_at(cfg: ConfigView, at: Seq<usize>) -> Seq<u8> {
    Seq::new(at.len(), |k: int| cfg.units[at[k] as int].priority)
}

/// Answer the operator.
pub open spec fn replying(p: PassView, s: StateView, r: Result<(), ManualActionError>) -> (
    PassView,
    StateView,
    PassAction,
) {
    (PassView { phase: PassPhase::Replied, ..p }, s, PassAction::Reply(r))
}

/// Read the units' statuses.
pub open spec fn refreshing(p: PassView, s: StateView) -> (PassView, StateView, PassAction) {
    (PassView { phase: PassPhase::Refreshing, ..p }, s, PassAction::Refresh)
}

/// Go through the units that are to be up.
pub open spec fn ensuring(p: PassView, s: StateView, cfg: ConfigView) -> (
    PassView,
    StateView,
    PassAction,
) {
    let targets = targets_of(p.desired, cfg.units, s.held, p.preempted);
    if targets.len() == 0 {
        refreshing(p, s)
    } else {
        (
            PassView {
                phase: PassPhase::Resuming,
                list: targets,
                pos: 0,
                picked: Seq::empty(),
                ..p
            },
            s,
            PassAction::Resume(targets[0]),
        )
    }
}

/// With the state settled: preempt for a higher tier, while no game runs, then go
/// through the units that are to be up.
pub open spec fn settled(p: PassView, s: StateView, cfg: ConfigView) -> (
    PassView,
    StateView,
    PassAction,
) {
    if p.desired == State::Available && p.preempted.len() > 0 {
        (
            PassView {
                phase: PassPhase::CheckingPreempted,
                list: p.preempted,
                pos: 0,
                picked: Seq::empty(),
                ..p
            },
            s,
            PassAction::QueryRunning(p.preempted[0]),
        )
    } else {
        ensuring(p, s, cfg)
    }
}

/// With the evictions for a game done: the game has the GPU, whatever came of
/// them.
pub open spec fn handed_over(
    p: PassView,
    s: StateView,
    cfg: ConfigView,
    now: UnixTime,
) -> (PassView, StateView, PassAction) {
    settled(p, (StateView { degraded: p.failed, ..s }).entered(State::Gaming, now), cfg)
}

/// With everything observed: decide.
pub open spec fn decided(p: PassView, s: StateView, cfg: ConfigView, now: UnixTime) -> (
    PassView,
    StateView,
    PassAction,
) {
    let demand = demand_of(p.claims, cfg, priorities_at(cfg, p.busy));
    let desired = ArbiterState::resolved(p.claims);
    let q = PassView { preempted: below(cfg.units, demand), desired, failed: false, ..p };
    let t = StateView { claims: p.claims, ..s };
    match action_of(s.state, desired) {
        UnitAction::Evict => {
            let e = t.entered(State::Evicting, now);
            if q.preempted.len() == 0 {
                handed_over(q, e, cfg, now)
            } else {
                (
                    PassView {
                        phase: PassPhase::EvictingForGame,
                        list: q.preempted,
                        pos: 0,
                        ..q
                    },
                    e,
                    PassAction::EvictUnit(q.preempted[0]),
                )
            }
        },
        UnitAction::Restart => settled(
            q,
            (StateView { degraded: false, ..t }).entered(State::Available, now),
            cfg,
        ),
        UnitAction::Settle => settled(
            q,
            (StateView {
                degraded: if desired == State::Available {
                    false
                } else {
                    t.degraded
                },
                ..t
            }).entered(desired, now),
            cfg,
        ),
    }
}

/// Ask the unit at `pos` whether it has work; decide once all were asked.
pub open spec fn probing(p: PassView, s: StateView, cfg: ConfigView, now: UnixTime) -> (
    PassView,
    StateView,
    PassAction,
) {
    if p.pos < cfg.units.len() {
        (PassView { phase: PassPhase::Probing, ..p }, s, PassAction::ProbeBusy(p.pos))
    } else {
        decided(p, s, cfg, now)
    }
}

/// A pass that an observation ended.
pub open spec fn given_up(p: PassView, s: StateView) -> (PassView, StateView, PassAction) {
    (PassView { phase: PassPhase::Done, ..p }, s, PassAction::GiveUp)
}

/// The state after an eviction was counted.
pub open spec fn counted_in(
    s: StateView,
    unit: Seq<char>,
    r: Result<EvictionOutcome, ()>,
    t: EvictionTimings,
) -> StateView {
    StateView { metrics: eviction_counted(s.metrics, unit, r, t), ..s }
}

/// One further in the list.
pub open spec fn further(p: PassView) -> PassView {
    PassView { pos: (p.pos + 1) as usize, ..p }
}

/// How a pass begins: it is counted; what an operator asked for is done first. A
/// unit is not started for an operator while a game has the GPU. A unit that an
/// operator stops is held before anything else.
pub open spec fn pass_begun(trigger: ReconcileTrigger, s: StateView, cfg: ConfigView) -> (
    PassView,
    StateView,
    PassAction,
) {
    let p = PassView {
        phase: PassPhase::Observing,
        unit: match trigger {
            ReconcileTrigger::ManualStart { unit } => unit@,
            ReconcileTrigger::ManualStop { unit } => unit@,
            _ => Seq::empty(),
        },
        claims: Seq::empty(),
        desired: State::Available,
        busy: Seq::empty(),
        preempted: Seq::empty(),
        list: Seq::empty(),
        pos: 0,
        picked: Seq::empty(),
        failed: false,
    };
    let c = StateView { metrics: s.metrics.with_pass(trigger.bucket()), ..s };
    match trigger {
        ReconcileTrigger::ManualStart { unit } => if s.state == State::Gaming || s.state
            == State::Evicting {
            replying(p, c, Err(ManualActionError::GpuHeldByGame))
        } else {
            match unit_index(cfg.units, unit@) {
                Some(i) => (
                    PassView { phase: PassPhase::ManualStart, ..p },
                    c,
                    PassAction::StartUnit(i as usize),
                ),
                None => replying(p, c, Err(ManualActionError::Failed)),
            }
        },
        ReconcileTrigger::ManualStop { unit } => {
            let h = StateView { held: c.held.insert(unit@), ..c };
            match unit_index(cfg.units, unit@) {
                Some(i) => (
                    PassView { phase: PassPhase::ManualStop, ..p },
                    h,
                    PassAction::EvictUnit(i as usize),
                ),
                None => replying(
                    p,
                    StateView {
                        metrics: h.metrics.with_eviction(
                            unit@,
                            crate::units::EvictionMetricOutcome::Error,
                        ),
                        ..h
                    },
                    Err(ManualActionError::Failed),
                ),
            }
        },
        _ => (p, c, PassAction::Observe),
    }
}

/// How a pass goes on.
pub open spec fn pass_next(
    p: PassView,
    s: StateView,
    cfg: ConfigView,
    ev: PassEventView,
    now: UnixTime,
) -> (PassView, StateView, PassAction) {
    match (p.phase, ev) {
        (PassPhase::ManualStart, PassEventView::Started(ok)) => if ok {
            replying(
                p,
                StateView {
                    held: s.held.remove(p.unit),
                    metrics: s.metrics.with_restart(p.unit),
                    ..s
                },
                Ok(()),
            )
        } else {
            replying(p, s, Err(ManualActionError::Failed))
        },
        (PassPhase::ManualStop, PassEventView::Evicted(r, _)) => {
            let t = match metric_of(r) {
                Some(o) => StateView { metrics: s.metrics.with_eviction(p.unit, o), ..s },
                None => s,
            };
            replying(
                p,
                t,
                match r {
                    Ok(_) => Ok(()),
                    Err(_) => Err(ManualActionError::Failed),
                },
            )
        },
        (PassPhase::Replied, _) => (
            PassView { phase: PassPhase::Observing, ..p },
            s,
            PassAction::Observe,
        ),
        (PassPhase::Observing, PassEventView::Observed(o)) => probing(
            PassView { claims: claims_of(o, cfg), busy: Seq::empty(), pos: 0, ..p },
            s,
            cfg,
            now,
        ),
        (PassPhase::Observing, _) => given_up(p, s),
        (PassPhase::Probing, PassEventView::Busy(busy)) => probing(
            further(
                if busy {
                    PassView { busy: p.busy.push(p.pos), ..p }
                } else {
                    p
                },
            ),
            s,
            cfg,
            now,
        ),
        (PassPhase::EvictingForGame, PassEventView::Evicted(r, t)) => {
            let c = counted_in(s, name_at(cfg, p.list[p.pos as int]), r, t);
            let q = further(PassView { failed: p.failed || r is Err, ..p });
            if q.pos < q.list.len() {
                (q, c, PassAction::EvictUnit(q.list[q.pos as int]))
            } else {
                handed_over(q, c, cfg, now)
            }
        },
        (PassPhase::CheckingPreempted, PassEventView::Running(r)) => {
            let q = further(
                if r == Some(false) {
                    p
                } else {
                    PassView { picked: p.picked.push(p.list[p.pos as int]), ..p }
                },
            );
            if q.pos < q.list.len() {
                (q, s, PassAction::QueryRunning(q.list[q.pos as int]))
            } else if q.picked.len() == 0 {
                ensuring(q, s, cfg)
            } else {
                (
                    PassView { phase: PassPhase::Preempting, list: q.picked, pos: 0, ..q },
                    s,
                    PassAction::EvictUnit(q.picked[0]),
                )
            }
        },
        (PassPhase::Preempting, PassEventView::Evicted(r, t)) => {
            let c = counted_in(s, name_at(cfg, p.list[p.pos as int]), r, t);
            let q = further(p);
            if q.pos < q.list.len() {
                (q, c, PassAction::EvictUnit(q.list[q.pos as int]))
            } else {
                ensuring(q, c, cfg)
            }
        },
        (PassPhase::Resuming, _) => (
            PassView { phase: PassPhase::CheckingTarget, ..p },
            s,
            PassAction::QueryRunning(p.list[p.pos as int]),
        ),
        (PassPhase::CheckingTarget, PassEventView::Running(r)) => {
            let q = further(
                if r == Some(true) {
                    p
                } else {
                    PassView { picked: p.picked.push(p.list[p.pos as int]), ..p }
                },
            );
            if q.pos < q.list.len() {
                (
                    PassView { phase: PassPhase::Resuming, ..q },
                    s,
                    PassAction::Resume(q.list[q.pos as int]),
                )
            } else if q.picked.len() == 0 {
                refreshing(q, s)
            } else {
                (PassView { phase: PassPhase::Reobserving, ..q }, s, PassAction::Observe)
            }
        },
        (PassPhase::Reobserving, PassEventView::Observed(o)) => if claims_of(o, cfg).len() == 0 {
            (
                PassView { phase: PassPhase::Starting, list: p.picked, pos: 0, ..p },
                s,
                PassAction::StartUnit(p.picked[0]),
            )
        } else {
            refreshing(p, s)
        },
        (PassPhase::Reobserving, _) => given_up(p, s),
        (PassPhase::Starting, PassEventView::Started(ok)) => {
            let c = if ok {
                StateView {
                    metrics: s.metrics.with_restart(name_at(cfg, p.list[p.pos as int])),
                    ..s
                }
            } else {
                s
            };
            let q = further(p);
            if q.pos < q.list.len() {
                (q, c, PassAction::StartUnit(q.list[q.pos as int]))
            } else {
                refreshing(q, c)
            }
        },
        (PassPhase::Refreshing, _) => (
            PassView { phase: PassPhase::Done, ..p },
            s,
            PassAction::Finish,
        ),
        _ => (p, s, PassAction::Finish),
    }
}

/// Every position is one of a unit.
pub open spec fn in_range(at: Seq<usize>, cfg: ConfigView) -> bool {
    forall|k: int| 0 <= k < at.len() ==> (#[trigger] at[k]) < cfg.units.len()
}

/// Every position is one of a unit that is to be up.
pub open spec fn all_wanted(at: Seq<usize>, p: PassView, s: StateView, cfg: ConfigView) -> bool {
    forall|k: int|
        0 <= k < at.len() ==> wanted_up(cfg.units, s.held, p.preempted, (#[trigger] at[k]) as int)
}

/// Through a pass holds: its lists are lists of units, and it has not gone through
/// them; once it has decided, the state is the one that the claims call for, except
/// that it is evicting until a game has been handed the GPU; it brings up only
/// units that are to be up, and only where nothing claims the GPU.
pub open spec fn pass_wf(p: PassView, s: StateView, cfg: ConfigView) -> bool {
    &&& in_range(p.busy, cfg)
    &&& in_range(p.preempted, cfg)
    &&& in_range(p.list, cfg)
    &&& in_range(p.picked, cfg)
    &&& match p.phase {
        PassPhase::ManualStart => s.state == State::Available,
        PassPhase::ManualStop => s.held.contains(p.unit),
        PassPhase::Replied => true,
        PassPhase::Observing => true,
        PassPhase::Probing => p.pos < cfg.units.len(),
        PassPhase::EvictingForGame => {
            &&& p.pos < p.list.len()
            &&& p.desired == State::Gaming
            &&& p.claims.len() > 0
            &&& s.claims == p.claims
            &&& s.state == State::Evicting
            &&& on_the_ladder(p, cfg)
            &&& all_among(p.list, p.preempted)
        },
        PassPhase::CheckingPreempted => {
            &&& p.pos < p.list.len()
            &&& pass_settled(p, s, cfg)
            &&& p.desired == State::Available
            &&& all_among(p.list, p.preempted)
            &&& all_among(p.picked, p.preempted)
        },
        PassPhase::Preempting => {
            &&& p.pos < p.list.len()
            &&& pass_settled(p, s, cfg)
            &&& p.desired == State::Available
            &&& all_among(p.list, p.preempted)
        },
        PassPhase::Resuming => p.pos < p.list.len() && pass_free(p, s, cfg),
        PassPhase::CheckingTarget => p.pos < p.list.len() && pass_free(p, s, cfg),
        PassPhase::Reobserving => p.picked.len() > 0 && pass_free(p, s, cfg),
        PassPhase::Starting => p.pos < p.list.len() && pass_free(p, s, cfg),
        PassPhase::Refreshing => pass_settled(p, s, cfg),
        PassPhase::Done => true,
    }
}

/// Every position of `a` is one of `b`.
pub open spec fn all_among(a: Seq<usize>, b: Seq<usize>) -> bool {
    forall|k: int| 0 <= k < a.len() ==> b.contains(#[trigger] a[k])
}

/// The units that may not run are those below the demand.
pub open spec fn on_the_ladder(p: PassView, cfg: ConfigView) -> bool {
    p.preempted == below(cfg.units, demand_of(p.claims, cfg, priorities_at(cfg, p.busy)))
}

/// The state is the one that the claims call for.
pub open spec fn pass_settled(p: PassView, s: StateView, cfg: ConfigView) -> bool {
    &&& on_the_ladder(p, cfg)
    &&& p.desired == ArbiterState::resolved(p.claims)
    &&& s.claims == p.claims
    &&& s.state == p.desired
    &&& p.desired == State::Available ==> !s.degraded
}

/// Nothing claims the GPU, and the units that are gone through are to be up.
pub open spec fn pass_free(p: PassView, s: StateView, cfg: ConfigView) -> bool {
    &&& pass_settled(p, s, cfg)
    &&& p.desired == State::Available
    &&& all_wanted(p.list, p, s, cfg)
    &&& all_wanted(p.picked, p, s, cfg)
}

impl Pass {
    fn reply(self, r: Result<(), ManualActionError>) -> (o: (Pass, PassAction))
        ensures
            o.0@ == (PassView { phase: PassPhase::Replied, ..self@ }),
            o.1 == PassAction::Reply(r),
    {
        (Pass { phase: PassPhase::Replied, ..self }, PassAction::Reply(r))
    }

    /// Begin a pass.
    pub fn begin(trigger: ReconcileTrigger, st: &mut ArbiterState, cfg: &Config) -> (r: (
        Pass,
        PassAction,
    ))
        requires
            old(st).wf(),
            old(st)@.metrics.has_room(),
        ensures
            final(st).wf(),
            (r.0@, final(st)@, r.1) == pass_begun(trigger, old(st)@, cfg@),
            pass_wf(r.0@, final(st)@, cfg@),
    {
        let ghost s0 = st@;
        st.metrics.record_reconcile_pass(trigger.pass_trigger());
        let p = Pass {
            phase: PassPhase::Observing,
            unit: String::new(),
            claims: Vec::new(),
            desired: State::Available,
            busy: Vec::new(),
            preempted: Vec::new(),
            list: Vec::new(),
            pos: 0,
            picked: Vec::new(),
            failed: false,
        };
        proof {
            assert(p@.claims =~= Seq::empty());
            assert(p@.busy =~= Seq::empty());
            assert(p@.preempted =~= Seq::empty());
            assert(p@.list =~= Seq::empty());
            assert(p@.picked =~= Seq::empty());
        }
        match trigger {
            ReconcileTrigger::ManualStart { unit } => {
                let found = find_unit(cfg, unit.as_str());
                let p = Pass { unit, ..p };
                if st.state == State::Gaming || st.state == State::Evicting {
                    p.reply(Err(ManualActionError::GpuHeldByGame))
                } else {
                    match found {
                        Some(i) => (
                            Pass { phase: PassPhase::ManualStart, ..p },
                            PassAction::StartUnit(i),
                        ),
                        None => p.reply(Err(ManualActionError::Failed)),
                    }
                }
            },
            ReconcileTrigger::ManualStop { unit } => {
                st.held.set(unit.as_str(), ());
                proof {
                    assert(st@.held =~= s0.held.insert(unit@));
                }
                match find_unit(cfg, unit.as_str()) {
                    Some(i) => (
                        Pass { phase: PassPhase::ManualStop, unit, ..p },
                        PassAction::EvictUnit(i),
                    ),
                    None => {
                        proof {
                            assert(crate::metrics::counts_have_room(s0.metrics.evictions_of(unit@)));
                        }
                        st.metrics.record_eviction(
                            unit.as_str(),
                            crate::units::EvictionMetricOutcome::Error,
                        );
                        let p = Pass { unit, ..p };
                        p.reply(Err(ManualActionError::Failed))
                    },
                }
            },
            _ => (p, PassAction::Observe),
        }
    }

    fn refresh(self) -> (o: (Pass, PassAction))
        ensures
            o.0@ == (PassView { phase: PassPhase::Refreshing, ..self@ }),
            o.1 == PassAction::Refresh,
    {
        (Pass { phase: PassPhase::Refreshing, ..self }, PassAction::Refresh)
    }

    fn ensure(self, st: &ArbiterState, cfg: &Config) -> (r: (Pass, PassAction))
        requires
            st.wf(),
            in_range(self@.busy, cfg@),
            in_range(self@.preempted, cfg@),
            in_range(self@.list, cfg@),
            in_range(self@.picked, cfg@),
            pass_settled(self@, st@, cfg@),
        ensures
            (r.0@, st@, r.1) == ensuring(self@, st@, cfg@),
            pass_wf(r.0@, st@, cfg@),
    {
        let targets = ensure_running_targets(self.desired, cfg, &st.held, &self.preempted);
        let n: usize = cfg.units.len();
        proof {
            assert(cfg@.units.len() == n);
            lemma_wanted(
                cfg@.units,
                st@.held,
                self@.preempted,
                cfg@.units.len() as int,
            );
        }
        if targets.len() == 0 {
            return self.refresh();
        }
        let first: usize = targets[0];
        let picked: Vec<usize> = Vec::new();
        proof {
            assert(picked@ =~= Seq::empty());
        }
        (
            Pass { phase: PassPhase::Resuming, list: targets, pos: 0, picked, ..self },
            PassAction::Resume(first),
        )
    }

    fn settle(self, st: &ArbiterState, cfg: &Config) -> (r: (Pass, PassAction))
        requires
            st.wf(),
            in_range(self@.busy, cfg@),
            in_range(self@.preempted, cfg@),
            in_range(self@.list, cfg@),
            in_range(self@.picked, cfg@),
            pass_settled(self@, st@, cfg@),
        ensures
            (r.0@, st@, r.1) == settled(self@, st@, cfg@),
            pass_wf(r.0@, st@, cfg@),
    {
        if self.desired == State::Available && self.preempted.len() > 0 {
            let first: usize = self.preempted[0];
            let list = copy_positions(&self.preempted);
            let picked: Vec<usize> = Vec::new();
            proof {
                assert(picked@ =~= Seq::empty());
            }
            (
                Pass { phase: PassPhase::CheckingPreempted, list, pos: 0, picked, ..self },
                PassAction::QueryRunning(first),
            )
        } else {
            self.ensure(st, cfg)
        }
    }

    fn hand_over(self, st: &mut ArbiterState, cfg: &Config, now: UnixTime) -> (r: (
        Pass,
        PassAction,
    ))
        requires
            old(st).wf(),
            in_range(self@.busy, cfg@),
            in_range(self@.preempted, cfg@),
            in_range(self@.list, cfg@),
            in_range(self@.picked, cfg@),
            on_the_ladder(self@, cfg@),
            self@.desired == State::Gaming,
            self@.claims.len() > 0,
            old(st)@.claims == self@.claims,
        ensures
            final(st).wf(),
            (r.0@, final(st)@, r.1) == handed_over(self@, old(st)@, cfg@, now),
            pass_wf(r.0@, final(st)@, cfg@),
    {
        st.degraded = self.failed;
        st.set_state(State::Gaming, now);
        self.settle(st, cfg)
    }

    fn decide(self, st: &mut ArbiterState, cfg: &Config, now: UnixTime) -> (r: (Pass, PassAction))
        requires
            old(st).wf(),
            in_range(self@.busy, cfg@),
            in_range(self@.preempted, cfg@),
            in_range(self@.list, cfg@),
            in_range(self@.picked, cfg@),
        ensures
            final(st).wf(),
            (r.0@, final(st)@, r.1) == decided(self@, old(st)@, cfg@, now),
            pass_wf(r.0@, final(st)@, cfg@),
    {
        let mut busy: Vec<&ManagedUnit> = Vec::new();
        let mut k: usize = 0;
        while k < self.busy.len()
            invariant
                k <= self.busy.len(),
                in_range(self@.busy, cfg@),
                busy@.len() == k,
                forall|j: int|
                    0 <= j < k ==> (#[trigger] busy@[j]).priority
                        == cfg@.units[self@.busy[j] as int].priority,
            decreases self.busy.len() - k,
        {
            proof {
                let i = self@.busy[k as int] as int;
                assert(cfg@.units[i] == cfg.units@[i]@);
            }
            busy.push(&cfg.units[self.busy[k]]);
            k = k + 1;
        }
        proof {
            assert(priorities(busy@) =~= priorities_at(cfg@, self@.busy));
        }
        let demand = effective_demand(self.claims.as_slice(), cfg, busy.as_slice());
        let preempted = preempted_positions(cfg, demand);
        let desired = ArbiterState::resolve_state(self.claims.as_slice());
        let n: usize = cfg.units.len();
        proof {
            assert(cfg@.units.len() == n);
            lemma_below(cfg@.units, demand);
        }
        let current = st.state;
        st.claims = copy_claims(&self.claims);
        let q = Pass { preempted, desired, failed: false, ..self };
        match unit_action(current, desired) {
            UnitAction::Evict => {
                st.set_state(State::Evicting, now);
                if q.preempted.len() == 0 {
                    q.hand_over(st, cfg, now)
                } else {
                    let first: usize = q.preempted[0];
                    let list = copy_positions(&q.preempted);
                    (
                        Pass { phase: PassPhase::EvictingForGame, list, pos: 0, ..q },
                        PassAction::EvictUnit(first),
                    )
                }
            },
            UnitAction::Restart => {
                st.degraded = false;
                st.set_state(State::Available, now);
                q.settle(st, cfg)
            },
            UnitAction::Settle => {
                if desired == State::Available {
                    st.degraded = false;
                }
                st.set_state(desired, now);
                q.settle(st, cfg)
            },
        }
    }

    fn probe(self, st: &mut ArbiterState, cfg: &Config, now: UnixTime) -> (r: (Pass, PassAction))
        requires
            old(st).wf(),
            in_range(self@.busy, cfg@),
            in_range(self@.preempted, cfg@),
            in_range(self@.list, cfg@),
            in_range(self@.picked, cfg@),
        ensures
            final(st).wf(),
            (r.0@, final(st)@, r.1) == probing(self@, old(st)@, cfg@, now),
            pass_wf(r.0@, final(st)@, cfg@),
    {
        if self.pos < cfg.units.len() {
            let at: usize = self.pos;
            (Pass { phase: PassPhase::Probing, ..self }, PassAction::ProbeBusy(at))
        } else {
            self.decide(st, cfg, now)
        }
    }

    fn on_started(self, st: &mut ArbiterState, cfg: &Config, ok: bool, now: UnixTime) -> (r: (Pass, PassAction))
        requires
            old(st).wf(),
            old(st)@.metrics.has_room(),
            pass_wf(self@, old(st)@, cfg@),
            pass_awaits(self@.phase, PassEventView::Started(ok)),
        ensures
            final(st).wf(),
            (r.0@, final(st)@, r.1) == pass_next(self@, old(st)@, cfg@, PassEventView::Started(ok), now),
            pass_wf(r.0@, final(st)@, cfg@),
    {
        let ghost s0 = st@;
        match self.phase {
            PassPhase::ManualStart => if ok {
                proof {
                    assert(s0.metrics.restarts_of(self.unit@) < u64::MAX);
                }
                st.held.remove(self.unit.as_str());
                st.metrics.record_unit_restart(self.unit.as_str());
                proof {
                    assert(st@.held =~= s0.held.remove(self.unit@));
                }
                self.reply(Ok(()))
            } else {
                self.reply(Err(ManualActionError::Failed))
            },
            _ => {
                let n: usize = self.list.len();
                if ok {
                    let i: usize = self.list[self.pos];
                    proof {
                        assert(cfg@.units[i as int] == cfg.units@[i as int]@);
                        assert(s0.metrics.restarts_of(name_at(cfg@, i)) < u64::MAX);
                    }
                    st.metrics.record_unit_restart(cfg.units[i].unit.as_str());
                }
                let q = Pass { pos: self.pos + 1, ..self };
                if q.pos < n {
                    let i: usize = q.list[q.pos];
                    (q, PassAction::StartUnit(i))
                } else {
                    q.refresh()
                }
            },
        }
    }

    fn on_evicted(self, st: &mut ArbiterState, cfg: &Config, result: Result<EvictionOutcome, UnitError>, t: EvictionTimings, now: UnixTime) -> (r: (Pass, PassAction))
        requires
            old(st).wf(),
            old(st)@.metrics.has_room(),
            pass_wf(self@, old(st)@, cfg@),
            pass_awaits(self@.phase, PassEventView::Evicted(plain_result(result), t)),
        ensures
            final(st).wf(),
            (r.0@, final(st)@, r.1) == pass_next(self@, old(st)@, cfg@, PassEventView::Evicted(plain_result(result), t), now),
            pass_wf(r.0@, final(st)@, cfg@),
    {
        let ghost s0 = st@;
        match self.phase {
            PassPhase::ManualStop => {
                proof {
                    assert(crate::metrics::counts_have_room(s0.metrics.evictions_of(self.unit@)));
                }
                if let Some(o) = eviction_metric_outcome(&result) {
                    st.metrics.record_eviction(self.unit.as_str(), o);
                }
                match result {
                    Ok(_) => self.reply(Ok(())),
                    Err(_) => self.reply(Err(ManualActionError::Failed)),
                }
            },
            PassPhase::EvictingForGame => {
                let n: usize = self.list.len();
                let i: usize = self.list[self.pos];
                proof {
                    assert(cfg@.units[i as int] == cfg.units@[i as int]@);
                }
                count_eviction(&mut st.metrics, cfg.units[i].unit.as_str(), &result, t);
                let failed: bool = self.failed || result.is_err();
                let q = Pass { pos: self.pos + 1, failed, ..self };
                if q.pos < n {
                    let i: usize = q.list[q.pos];
                    (q, PassAction::EvictUnit(i))
                } else {
                    q.hand_over(st, cfg, now)
                }
            },
            _ => {
                let n: usize = self.list.len();
                let i: usize = self.list[self.pos];
                proof {
                    assert(cfg@.units[i as int] == cfg.units@[i as int]@);
                }
                count_eviction(&mut st.metrics, cfg.units[i].unit.as_str(), &result, t);
                let q = Pass { pos: self.pos + 1, ..self };
                if q.pos < n {
                    let i: usize = q.list[q.pos];
                    (q, PassAction::EvictUnit(i))
                } else {
                    q.ensure(st, cfg)
                }
            },
        }
    }

    fn on_observed(self, st: &mut ArbiterState, cfg: &Config, snap: ProcSnapshot, now: UnixTime) -> (r: (Pass, PassAction))
        requires
            old(st).wf(),
            old(st)@.metrics.has_room(),
            pass_wf(self@, old(st)@, cfg@),
            pass_awaits(self@.phase, PassEventView::Observed(snap@)),
        ensures
            final(st).wf(),
            (r.0@, final(st)@, r.1) == pass_next(self@, old(st)@, cfg@, PassEventView::Observed(snap@), now),
            pass_wf(r.0@, final(st)@, cfg@),
    {
        let claims = claim_set(&snap, cfg);
        match self.phase {
            PassPhase::Observing => {
                let busy: Vec<usize> = Vec::new();
                proof {
                    assert(busy@ =~= Seq::empty());
                }
                let q = Pass { claims, busy, pos: 0, ..self };
                q.probe(st, cfg, now)
            },
            _ => if ensure_running_toctou_clear(claims.as_slice()) {
                let first: usize = self.picked[0];
                let list = copy_positions(&self.picked);
                (
                    Pass { phase: PassPhase::Starting, list, pos: 0, ..self },
                    PassAction::StartUnit(first),
                )
            } else {
                self.refresh()
            },
        }
    }

    fn on_busy(self, st: &mut ArbiterState, cfg: &Config, busy: bool, now: UnixTime) -> (r: (Pass, PassAction))
        requires
            old(st).wf(),
            old(st)@.metrics.has_room(),
            pass_wf(self@, old(st)@, cfg@),
            pass_awaits(self@.phase, PassEventView::Busy(busy)),
        ensures
            final(st).wf(),
            (r.0@, final(st)@, r.1) == pass_next(self@, old(st)@, cfg@, PassEventView::Busy(busy), now),
            pass_wf(r.0@, final(st)@, cfg@),
    {
        let at: usize = self.pos;
        let n: usize = cfg.units.len();
        let mut q = self;
        if busy {
            q.busy.push(at);
        }
        q.pos = at + 1;
        q.probe(st, cfg, now)
    }

    fn on_running(self, st: &mut ArbiterState, cfg: &Config, running: Option<bool>, now: UnixTime) -> (r: (Pass, PassAction))
        requires
            old(st).wf(),
            old(st)@.metrics.has_room(),
            pass_wf(self@, old(st)@, cfg@),
            pass_awaits(self@.phase, PassEventView::Running(running)),
        ensures
            final(st).wf(),
            (r.0@, final(st)@, r.1) == pass_next(self@, old(st)@, cfg@, PassEventView::Running(running), now),
            pass_wf(r.0@, final(st)@, cfg@),
    {
        let n: usize = self.list.len();
        let at: usize = self.list[self.pos];
        let mut q = self;
        match q.phase {
            PassPhase::CheckingPreempted => {
                if running != Some(false) {
                    q.picked.push(at);
                }
                q.pos = q.pos + 1;
                if q.pos < n {
                    let i: usize = q.list[q.pos];
                    (q, PassAction::QueryRunning(i))
                } else if q.picked.len() == 0 {
                    q.ensure(st, cfg)
                } else {
                    let first: usize = q.picked[0];
                    let list = copy_positions(&q.picked);
                    (
                        Pass { phase: PassPhase::Preempting, list, pos: 0, ..q },
                        PassAction::EvictUnit(first),
                    )
                }
            },
            _ => {
                if running != Some(true) {
                    q.picked.push(at);
                }
                q.pos = q.pos + 1;
                if q.pos < n {
                    let i: usize = q.list[q.pos];
                    (Pass { phase: PassPhase::Resuming, ..q }, PassAction::Resume(i))
                } else if q.picked.len() == 0 {
                    q.refresh()
                } else {
                    (Pass { phase: PassPhase::Reobserving, ..q }, PassAction::Observe)
                }
            },
        }
    }

    /// Go on with a pass: take in what it waited for, at `now`, and say what it
    /// wants done next.
    pub fn step(self, st: &mut ArbiterState, cfg: &Config, ev: PassEvent, now: UnixTime) -> (r: (
        Pass,
        PassAction,
    ))
        requires
            old(st).wf(),
            old(st)@.metrics.has_room(),
            pass_wf(self@, old(st)@, cfg@),
            pass_awaits(self@.phase, ev@),
        ensures
            final(st).wf(),
            (r.0@, final(st)@, r.1) == pass_next(self@, old(st)@, cfg@, ev@, now),
            pass_wf(r.0@, final(st)@, cfg@),
    {
        match ev {
            PassEvent::Started(ok) => self.on_started(st, cfg, ok, now),
            PassEvent::Evicted(result, t) => self.on_evicted(st, cfg, result, t, now),
            PassEvent::Replied => (
                Pass { phase: PassPhase::Observing, ..self },
                PassAction::Observe,
            ),
            PassEvent::Observed(snap) => self.on_observed(st, cfg, snap, now),
            PassEvent::ObserveFailed => (
                Pass { phase: PassPhase::Done, ..self },
                PassAction::GiveUp,
            ),
            PassEvent::Busy(busy) => self.on_busy(st, cfg, busy, now),
            PassEvent::Running(running) => self.on_running(st, cfg, running, now),
            PassEvent::Resumed => {
                let i: usize = self.list[self.pos];
                (Pass { phase: PassPhase::CheckingTarget, ..self }, PassAction::QueryRunning(i))
            },
            PassEvent::Refreshed => (Pass { phase: PassPhase::Done, ..self }, PassAction::Finish),
        }
    }
}

fn copy_positions(v: &Vec<usize>) -> (r: Vec<usize>)
    ensures
        r@ == v@,
{
    let mut out: Vec<usize> = Vec::new();
    let mut i: usize = 0;
    while i < v.len()
        invariant
            i <= v.len(),
            out@ == v@.take(i as int),
        decreases v.len() - i,
    {
        out.push(v[i]);
        proof {
            assert(v@.take(i + 1) =~= v@.take(i as int).push(v@[i as int]));
        }
        i = i + 1;
    }
    proof {
        assert(v@.take(v.len() as int) =~= v@);
    }
    out
}

fn copy_claims(v: &Vec<Claim>) -> (r: Vec<Claim>)
    ensures
        claim_views(r@) == claim_views(v@),
{
    let mut out: Vec<Claim> = Vec::new();
    let mut i: usize = 0;
    while i < v.len()
        invariant
            i <= v.len(),
            out@.len() == i,
            forall|j: int| 0 <= j < i ==> (#[trigger] out@[j])@ == v@[j]@,
        decreases v.len() - i,
    {
        let c = match &v[i] {
            Claim::Steam(s) => Claim::Steam(s.clone()),
            Claim::Pattern(s) => Claim::Pattern(s.clone()),
            Claim::Gpu(n) => Claim::Gpu(*n),
        };
        out.push(c);
        i = i + 1;
    }
    proof {
        assert(claim_views(out@) =~= claim_views(v@));
    }
    out
}

// ── laws ───────────────────────────────────────────────────────────────────

/// Every step of a pass leaves it in shape.
pub proof fn pass_stays_wf(
    p: PassView,
    s: StateView,
    cfg: ConfigView,
    ev: PassEventView,
    now: UnixTime,
)
    requires
        cfg.units.len() <= usize::MAX,
        p.list.len() <= usize::MAX,
        pass_wf(p, s, cfg),
        pass_awaits(p.phase, ev),
    ensures
        ({
            let n = pass_next(p, s, cfg, ev, now);
            pass_wf(n.0, n.1, cfg)
        }),
{
    let d = demand_of(p.claims, cfg, priorities_at(cfg, p.busy));
    lemma_below(cfg.units, d);
    let n = pass_next(p, s, cfg, ev, now);
    match (p.phase, ev) {
        (PassPhase::Observing, PassEventView::Observed(o)) => {
            let q = PassView { claims: claims_of(o, cfg), busy: Seq::empty(), pos: 0, ..p };
            lemma_probing_wf(q, s, cfg, now);
        },
        (PassPhase::Probing, PassEventView::Busy(busy)) => {
            let q = further(
                if busy {
                    PassView { busy: p.busy.push(p.pos), ..p }
                } else {
                    p
                },
            );
            lemma_probing_wf(q, s, cfg, now);
        },
        (PassPhase::EvictingForGame, PassEventView::Evicted(r, t)) => {
            let c = counted_in(s, name_at(cfg, p.list[p.pos as int]), r, t);
            let q = further(PassView { failed: p.failed || r is Err, ..p });
            lemma_settled_wf(
                q,
                (StateView { degraded: q.failed, ..c }).entered(State::Gaming, now),
                cfg,
            );
        },
        (PassPhase::CheckingPreempted, PassEventView::Running(r)) => {
            let q = further(
                if r == Some(false) {
                    p
                } else {
                    PassView { picked: p.picked.push(p.list[p.pos as int]), ..p }
                },
            );
            lemma_ensuring_wf(q, s, cfg);
        },
        (PassPhase::Preempting, PassEventView::Evicted(r, t)) => {
            let c = counted_in(s, name_at(cfg, p.list[p.pos as int]), r, t);
            lemma_ensuring_wf(further(p), c, cfg);
        },
        _ => {},
    }
}

/// The lists of a pass are lists of units.
pub open spec fn lists_in_range(p: PassView, cfg: ConfigView) -> bool {
    in_range(p.busy, cfg) && in_range(p.preempted, cfg) && in_range(p.list, cfg) && in_range(
        p.picked,
        cfg,
    )
}

proof fn lemma_ensuring_wf(p: PassView, s: StateView, cfg: ConfigView)
    requires
        cfg.units.len() <= usize::MAX,
        lists_in_range(p, cfg),
        pass_settled(p, s, cfg),
    ensures
        pass_wf(ensuring(p, s, cfg).0, s, cfg),
{
    lemma_wanted(cfg.units, s.held, p.preempted, cfg.units.len() as int);
}

proof fn lemma_settled_wf(p: PassView, s: StateView, cfg: ConfigView)
    requires
        cfg.units.len() <= usize::MAX,
        lists_in_range(p, cfg),
        pass_settled(p, s, cfg),
    ensures
        pass_wf(settled(p, s, cfg).0, s, cfg),
{
    lemma_ensuring_wf(p, s, cfg);
}

proof fn lemma_probing_wf(p: PassView, s: StateView, cfg: ConfigView, now: UnixTime)
    requires
        cfg.units.len() <= usize::MAX,
        lists_in_range(p, cfg),
    ensures
        pass_wf(probing(p, s, cfg, now).0, probing(p, s, cfg, now).1, cfg),
{
    let demand = demand_of(p.claims, cfg, priorities_at(cfg, p.busy));
    lemma_below(cfg.units, demand);
    let desired = ArbiterState::resolved(p.claims);
    let q = PassView { preempted: below(cfg.units, demand), desired, failed: false, ..p };
    let t = StateView { claims: p.claims, ..s };
    let e = t.entered(State::Evicting, now);
    if desired == State::Gaming {
        lemma_settled_wf(
            q,
            (StateView { degraded: q.failed, ..e }).entered(State::Gaming, now),
            cfg,
        );
    } else {
        lemma_settled_wf(
            q,
            (StateView { degraded: false, ..t }).entered(State::Available, now),
            cfg,
        );
    }
    lemma_settled_wf(
        q,
        (StateView {
            degraded: if desired == State::Available {
                false
            } else {
                t.degraded
            },
            ..t
        }).entered(desired, now),
        cfg,
    );
}

/// A unit is never started into a live game. Whatever happens in a pass, a step
/// that starts a unit on its own follows an observation in which nothing claims the
/// GPU, or a start that followed one; the pass itself observed no claim either; and
/// the unit is one that is to be up: eager, not held by an operator, not preempted.
pub proof fn never_started_into_a_game(
    p: PassView,
    s: StateView,
    cfg: ConfigView,
    ev: PassEventView,
    now: UnixTime,
)
    requires
        p.list.len() <= usize::MAX,
        pass_wf(p, s, cfg),
        pass_awaits(p.phase, ev),
        pass_next(p, s, cfg, ev, now).2 is StartUnit,
    ensures
        ({
            let i = pass_next(p, s, cfg, ev, now).2->StartUnit_0 as int;
            &&& p.phase == PassPhase::Starting || p.phase == PassPhase::Reobserving
            &&& p.phase == PassPhase::Reobserving ==> ev is Observed && claims_of(
                ev->Observed_0,
                cfg,
            ).len() == 0
            &&& p.claims.len() == 0
            &&& s.state == State::Available
            &&& 0 <= i < cfg.units.len()
            &&& cfg.units[i].eager_restart
            &&& !s.held.contains(cfg.units[i].unit)
            &&& !crate::ladder::named_at(cfg.units, p.preempted, cfg.units[i].unit)
        }),
{
    if p.phase == PassPhase::Starting {
        let k = p.pos + 1;
        assert(wanted_up(cfg.units, s.held, p.preempted, p.list[k] as int));
        assert(p.list[k] < cfg.units.len());
    } else if p.phase == PassPhase::Reobserving {
        assert(wanted_up(cfg.units, s.held, p.preempted, p.picked[0] as int));
        assert(p.picked[0] < cfg.units.len());
    }
}

/// A start that an operator asks for is refused, and changes nothing but the count
/// of passes, while a game has the GPU or is being handed it: a hold stays. Else
/// the unit is started, where it is managed.
pub proof fn manual_start_is_refused_in_a_game(unit: String, s: StateView, cfg: ConfigView)
    ensures
        ({
            let r = pass_begun(ReconcileTrigger::ManualStart { unit }, s, cfg);
            &&& s.state != State::Available ==> r.2 == PassAction::Reply(
                Err(ManualActionError::GpuHeldByGame),
            ) && r.1.held == s.held && r.1.state == s.state
            &&& r.2 is StartUnit ==> s.state == State::Available
            &&& s.state == State::Available && unit_index(cfg.units, unit@) is Some ==> r.2
                is StartUnit
        }),
{
}

/// A pass on its own begins by observing; only an operator's request comes first.
pub proof fn startup_observes_first(s: StateView, cfg: ConfigView)
    ensures
        pass_begun(ReconcileTrigger::Startup, s, cfg).2 == PassAction::Observe,
        pass_begun(ReconcileTrigger::Timer, s, cfg).2 == PassAction::Observe,
        pass_begun(ReconcileTrigger::ProcEvent, s, cfg).2 == PassAction::Observe,
{
}

/// A unit that an operator stops is held before it is evicted, whether or not the
/// eviction will succeed. No other pass begins by holding a unit or by lifting a
/// hold.
pub proof fn manual_stop_holds_first(trigger: ReconcileTrigger, s: StateView, cfg: ConfigView)
    ensures
        pass_begun(trigger, s, cfg).1.held == (match trigger {
            ReconcileTrigger::ManualStop { unit } => s.held.insert(unit@),
            _ => s.held,
        }),
{
}

/// Within a pass a hold is lifted only by a start that the operator asked for and
/// that succeeded, and only for that unit; none is added.
pub proof fn hold_is_lifted_by_a_start_only(
    p: PassView,
    s: StateView,
    cfg: ConfigView,
    ev: PassEventView,
    now: UnixTime,
)
    requires
        pass_awaits(p.phase, ev),
    ensures
        pass_next(p, s, cfg, ev, now).1.held == (if p.phase == PassPhase::ManualStart && ev
            == PassEventView::Started(true) {
            s.held.remove(p.unit)
        } else {
            s.held
        }),
{
}

/// A game wins the GPU: once the last eviction for it has ended, however it ended,
/// the state is gaming; that something failed is only shown.
pub proof fn gaming_wins_unconditionally(
    p: PassView,
    s: StateView,
    cfg: ConfigView,
    r: Result<EvictionOutcome, ()>,
    t: EvictionTimings,
    now: UnixTime,
)
    requires
        pass_wf(p, s, cfg),
        p.phase == PassPhase::EvictingForGame,
        p.pos + 1 == p.list.len(),
        p.list.len() <= usize::MAX,
    ensures
        ({
            let n = pass_next(p, s, cfg, PassEventView::Evicted(r, t), now).1;
            n.state == State::Gaming && n.degraded == (p.failed || r is Err)
        }),
{
}

/// The state is recomputed, not patched: once a pass has decided, the state is the
/// one that the claims call for, or evicting on the way to it, whatever it was
/// before.
pub proof fn state_is_recomputed(p: PassView, s: StateView, cfg: ConfigView, now: UnixTime)
    ensures
        ({
            let n = decided(p, s, cfg, now).1;
            &&& n.claims == p.claims
            &&& n.state == ArbiterState::resolved(p.claims) || (n.state == State::Evicting
                && ArbiterState::resolved(p.claims) == State::Gaming && s.state
                == State::Available)
        }),
{
}

/// A pass that ends well leaves the state that the claims it observed call for.
pub proof fn finished_pass_has_settled(
    p: PassView,
    s: StateView,
    cfg: ConfigView,
    ev: PassEventView,
    now: UnixTime,
)
    requires
        pass_wf(p, s, cfg),
        pass_awaits(p.phase, ev),
        pass_next(p, s, cfg, ev, now).2 == PassAction::Finish,
    ensures
        pass_next(p, s, cfg, ev, now).1.state == ArbiterState::resolved(
            pass_next(p, s, cfg, ev, now).1.claims,
        ),
{
}

/// One tenant that makes room for another is not a game: it changes neither the
/// state nor whether it is degraded.
pub proof fn preemption_is_not_gaming(
    p: PassView,
    s: StateView,
    cfg: ConfigView,
    ev: PassEventView,
    now: UnixTime,
)
    requires
        pass_wf(p, s, cfg),
        pass_awaits(p.phase, ev),
        p.phase == PassPhase::CheckingPreempted || p.phase == PassPhase::Preempting,
    ensures
        pass_next(p, s, cfg, ev, now).1.state == State::Available,
        !pass_next(p, s, cfg, ev, now).1.degraded,
{
}

/// A claim that appears between the first observation and the starts stops all of
/// them.
pub proof fn late_claim_stops_every_start(
    p: PassView,
    s: StateView,
    cfg: ConfigView,
    o: ObservationView,
    now: UnixTime,
)
    requires
        p.phase == PassPhase::Reobserving,
        claims_of(o, cfg).len() > 0,
    ensures
        pass_next(p, s, cfg, PassEventView::Observed(o), now).2 == PassAction::Refresh,
{
}

/// A unit that is to be up is asked to resume whether or not it runs: one that let
/// go of the GPU runs all the while.
pub proof fn every_target_is_resumed(
    p: PassView,
    s: StateView,
    cfg: ConfigView,
    running: Option<bool>,
    now: UnixTime,
)
    requires
        p.phase == PassPhase::CheckingTarget,
        p.pos + 1 < p.list.len(),
        p.list.len() <= usize::MAX,
    ensures
        pass_next(p, s, cfg, PassEventView::Running(running), now).2 == PassAction::Resume(
            p.list[p.pos + 1],
        ),
{
}

/// A pass evicts no unit at or above the demand: on its own it evicts only units
/// that the ladder preempts.
pub proof fn only_lower_units_are_evicted(
    p: PassView,
    s: StateView,
    cfg: ConfigView,
    ev: PassEventView,
    now: UnixTime,
)
    requires
        cfg.units.len() <= usize::MAX,
        p.list.len() <= usize::MAX,
        pass_wf(p, s, cfg),
        pass_awaits(p.phase, ev),
        pass_next(p, s, cfg, ev, now).2 is EvictUnit,
    ensures
        ({
            let n = pass_next(p, s, cfg, ev, now);
            let i = n.2->EvictUnit_0 as int;
            let demand = demand_of(n.0.claims, cfg, priorities_at(cfg, n.0.busy));
            &&& 0 <= i < cfg.units.len()
            &&& demand is Some
            &&& cfg.units[i].priority < demand->0
        }),
{
    pass_stays_wf(p, s, cfg, ev, now);
    let n = pass_next(p, s, cfg, ev, now);
    let q = n.0;
    let demand = demand_of(q.claims, cfg, priorities_at(cfg, q.busy));
    lemma_below(cfg.units, demand);
    assert(q.phase == PassPhase::EvictingForGame || q.phase == PassPhase::Preempting);
    assert(n.2->EvictUnit_0 == q.list[q.pos as int]);
    assert(q.preempted.contains(q.list[q.pos as int]));
    let k = choose|k: int| 0 <= k < q.preempted.len() && q.preempted[k] == q.list[q.pos as int];
    assert(below(cfg.units, demand)[k] == q.list[q.pos as int]);
}

/// While a game goes on, passes leave the units alone: eviction comes with its
/// start, and nothing is brought up before its end.
pub proof fn steady_gaming_touches_no_unit(
    p: PassView,
    s: StateView,
    cfg: ConfigView,
    now: UnixTime,
)
    requires
        p.claims.len() > 0,
        s.state == State::Gaming,
    ensures
        decided(p, s, cfg, now).2 == PassAction::Refresh,
        decided(p, s, cfg, now).1.state == State::Gaming,
        decided(p, s, cfg, now).1.degraded == s.degraded,
        decided(p, s, cfg, now).1.since == s.since,
{
}

/// Two states that differ at most in what deciding changes: the state, its instant,
/// the claims and whether it is degraded.
pub open spec fn only_decided(a: StateView, b: StateView) -> bool {
    b == StateView {
        state: b.state,
        since: b.since,
        claims: b.claims,
        degraded: b.degraded,
        ..a
    }
}

proof fn lemma_settled_keeps(p: PassView, s: StateView, cfg: ConfigView)
    ensures
        settled(p, s, cfg).1 == s,
        ensuring(p, s, cfg).1 == s,
{
}

proof fn lemma_decided_keeps(p: PassView, s: StateView, cfg: ConfigView, now: UnixTime)
    ensures
        only_decided(s, handed_over(p, s, cfg, now).1),
        only_decided(s, decided(p, s, cfg, now).1),
        only_decided(s, probing(p, s, cfg, now).1),
{
    lemma_settled_keeps(p, (StateView { degraded: p.failed, ..s }).entered(State::Gaming, now), cfg);
    let demand = demand_of(p.claims, cfg, priorities_at(cfg, p.busy));
    let desired = ArbiterState::resolved(p.claims);
    let q = PassView { preempted: below(cfg.units, demand), desired, failed: false, ..p };
    let t = StateView { claims: p.claims, ..s };
    let e = t.entered(State::Evicting, now);
    lemma_settled_keeps(
        q,
        (StateView { degraded: q.failed, ..e }).entered(State::Gaming, now),
        cfg,
    );
    lemma_settled_keeps(
        q,
        (StateView { degraded: false, ..t }).entered(State::Available, now),
        cfg,
    );
    let d = if desired == State::Available {
        false
    } else {
        t.degraded
    };
    lemma_settled_keeps(q, (StateView { degraded: d, ..t }).entered(desired, now), cfg);
}

/// The counters after a step.
pub open spec fn metrics_next(
    p: PassView,
    s: StateView,
    cfg: ConfigView,
    ev: PassEventView,
) -> MetricsView {
    match (p.phase, ev) {
        (PassPhase::ManualStart, PassEventView::Started(true)) => s.metrics.with_restart(p.unit),
        (PassPhase::ManualStop, PassEventView::Evicted(r, _)) => match metric_of(r) {
            Some(o) => s.metrics.with_eviction(p.unit, o),
            None => s.metrics,
        },
        (PassPhase::EvictingForGame, PassEventView::Evicted(r, t)) => eviction_counted(
            s.metrics,
            name_at(cfg, p.list[p.pos as int]),
            r,
            t,
        ),
        (PassPhase::Preempting, PassEventView::Evicted(r, t)) => eviction_counted(
            s.metrics,
            name_at(cfg, p.list[p.pos as int]),
            r,
            t,
        ),
        (PassPhase::Starting, PassEventView::Started(true)) => s.metrics.with_restart(
            name_at(cfg, p.list[p.pos as int]),
        ),
        _ => s.metrics,
    }
}

proof fn lemma_next_keeps(
    p: PassView,
    s: StateView,
    cfg: ConfigView,
    ev: PassEventView,
    now: UnixTime,
)
    ensures
        ({
            let n = pass_next(p, s, cfg, ev, now).1;
            &&& n.metrics == metrics_next(p, s, cfg, ev)
            &&& n.units == s.units
            &&& n.presence == s.presence
            &&& n.gpu_vram_used_mb == s.gpu_vram_used_mb
            &&& n.gpu_vram_total_mb == s.gpu_vram_total_mb
        }),
{
    match (p.phase, ev) {
        (PassPhase::Observing, PassEventView::Observed(o)) => {
            lemma_decided_keeps(
                PassView { claims: claims_of(o, cfg), busy: Seq::empty(), pos: 0, ..p },
                s,
                cfg,
                now,
            );
        },
        (PassPhase::Probing, PassEventView::Busy(busy)) => {
            let w = if busy {
                PassView { busy: p.busy.push(p.pos), ..p }
            } else {
                p
            };
            lemma_decided_keeps(further(w), s, cfg, now);
        },
        (PassPhase::EvictingForGame, PassEventView::Evicted(r, t)) => {
            let c = counted_in(s, name_at(cfg, p.list[p.pos as int]), r, t);
            let q = further(PassView { failed: p.failed || r is Err, ..p });
            lemma_decided_keeps(q, c, cfg, now);
        },
        (PassPhase::CheckingPreempted, PassEventView::Running(r)) => {
            let q = further(
                if r == Some(false) {
                    p
                } else {
                    PassView { picked: p.picked.push(p.list[p.pos as int]), ..p }
                },
            );
            lemma_settled_keeps(q, s, cfg);
        },
        (PassPhase::Preempting, PassEventView::Evicted(r, t)) => {
            let c = counted_in(s, name_at(cfg, p.list[p.pos as int]), r, t);
            lemma_settled_keeps(further(p), c, cfg);
        },
        _ => {},
    }
}

/// A step of a pass makes no counter smaller.
pub proof fn pass_only_counts_up(
    p: PassView,
    s: StateView,
    cfg: ConfigView,
    ev: PassEventView,
    now: UnixTime,
)
    requires
        s.metrics.has_room(),
        pass_awaits(p.phase, ev),
    ensures
        crate::metrics::grown(s.metrics, pass_next(p, s, cfg, ev, now).1.metrics),
{
    lemma_next_keeps(p, s, cfg, ev, now);
    lemma_counters_grow(p, s, cfg, ev);
}

proof fn lemma_counters_grow(p: PassView, s: StateView, cfg: ConfigView, ev: PassEventView)
    requires
        s.metrics.has_room(),
    ensures
        crate::metrics::grown(s.metrics, metrics_next(p, s, cfg, ev)),
{
    let m = s.metrics;
    match (p.phase, ev) {
        (PassPhase::ManualStart, PassEventView::Started(ok)) => {
            lemma_counts(m, p.unit);
        },
        (PassPhase::ManualStop, PassEventView::Evicted(r, t)) => {
            lemma_counts(m, p.unit);
        },
        (PassPhase::EvictingForGame, PassEventView::Evicted(r, t)) => {
            lemma_eviction_counted(m, name_at(cfg, p.list[p.pos as int]), r, t);
        },
        (PassPhase::Preempting, PassEventView::Evicted(r, t)) => {
            lemma_eviction_counted(m, name_at(cfg, p.list[p.pos as int]), r, t);
        },
        (PassPhase::Starting, PassEventView::Started(ok)) => {
            lemma_counts(m, name_at(cfg, p.list[p.pos as int]));
        },
        _ => {},
    }
}

proof fn lemma_counts(m: MetricsView, unit: Seq<char>)
    requires
        m.has_room(),
    ensures
        crate::metrics::grown(m, m.with_restart(unit)),
        forall|o: crate::units::EvictionMetricOutcome|
            crate::metrics::grown(m, #[trigger] m.with_eviction(unit, o)),
{
    assert forall|o: crate::units::EvictionMetricOutcome| crate::metrics::grown(
        m,
        #[trigger] m.with_eviction(unit, o),
    ) by {
        crate::metrics::counting_only_grows(
            m,
            unit,
            o,
            EvictionStage::Total,
            0,
            crate::metrics::PassTrigger::Timer,
        );
    }
    crate::metrics::counting_only_grows(
        m,
        unit,
        crate::units::EvictionMetricOutcome::Error,
        EvictionStage::Total,
        0,
        crate::metrics::PassTrigger::Timer,
    );
}

proof fn lemma_eviction_counted(
    m: MetricsView,
    unit: Seq<char>,
    r: Result<EvictionOutcome, ()>,
    t: EvictionTimings,
)
    requires
        m.has_room(),
    ensures
        crate::metrics::grown(m, eviction_counted(m, unit, r, t)),
{
    let e = eviction_counted(m, unit, r, t);
    assert(crate::metrics::counts_have_room(m.evictions_of(unit)));
    assert forall|n: Seq<char>, s: EvictionStage| m.durations_of(n).stage(s) is Some implies {
        let y = #[trigger] e.durations_of(n).stage(s);
        y is Some && m.durations_of(n).stage(s)->0.count <= y->0.count
    } by {
        if m.durations.dom().contains(n) {
            assert(m.durations[n].stage(s) is Some);
            assert(m.durations[n].stage(s)->0.count < u64::MAX);
        }
    }
}

/// The evictions go on to the end of the list: while a unit is left, it is the next
/// to be evicted, however the one before ended, and the state stays as it is.
pub proof fn next_unit_is_evicted(
    p: PassView,
    s: StateView,
    cfg: ConfigView,
    r: Result<EvictionOutcome, ()>,
    t: EvictionTimings,
    now: UnixTime,
)
    requires
        p.phase == PassPhase::EvictingForGame || p.phase == PassPhase::Preempting,
        p.pos + 1 < p.list.len() <= usize::MAX,
    ensures
        ({
            let n = pass_next(p, s, cfg, PassEventView::Evicted(r, t), now);
            &&& n.2 == PassAction::EvictUnit(p.list[p.pos + 1])
            &&& n.0.list == p.list && n.0.pos == p.pos + 1
            &&& n.1.state == s.state
            &&& p.phase == PassPhase::EvictingForGame ==> n.0.failed == (p.failed || r is Err)
        }),
{
}

/// The starts go on to the end of the list: while a unit is left, it is the next to
/// be started, whether or not the one before was.
pub proof fn next_unit_is_started(
    p: PassView,
    s: StateView,
    cfg: ConfigView,
    ok: bool,
    now: UnixTime,
)
    requires
        p.phase == PassPhase::Starting,
        p.pos + 1 < p.list.len() <= usize::MAX,
    ensures
        ({
            let n = pass_next(p, s, cfg, PassEventView::Started(ok), now);
            &&& n.2 == PassAction::StartUnit(p.list[p.pos + 1])
            &&& n.0.list == p.list && n.0.pos == p.pos + 1
        }),
{
}

/// An operator is told whether what they asked for was done, and the pass then goes
/// on to observe.
pub proof fn operator_is_told(
    p: PassView,
    s: StateView,
    cfg: ConfigView,
    ok: bool,
    r: Result<EvictionOutcome, ()>,
    t: EvictionTimings,
    now: UnixTime,
)
    ensures
        p.phase == PassPhase::ManualStart ==> pass_next(
            p,
            s,
            cfg,
            PassEventView::Started(ok),
            now,
        ).2 == PassAction::Reply(
            if ok {
                Ok(())
            } else {
                Err(ManualActionError::Failed)
            },
        ),
        p.phase == PassPhase::ManualStop ==> pass_next(
            p,
            s,
            cfg,
            PassEventView::Evicted(r, t),
            now,
        ).2 == PassAction::Reply(
            if r is Ok {
                Ok(())
            } else {
                Err(ManualActionError::Failed)
            },
        ),
        p.phase == PassPhase::Replied ==> pass_next(p, s, cfg, PassEventView::Replied, now).2
            == PassAction::Observe,
{
}

/// What an operator asks for is done to the unit of that name, where there is one.
pub proof fn operator_gets_the_named_unit(unit: String, s: StateView, cfg: ConfigView, i: int)
    requires
        cfg.units.len() <= usize::MAX,
        0 <= i < cfg.units.len(),
        cfg.units[i].unit == unit@,
        forall|j: int| 0 <= j < i ==> (#[trigger] cfg.units[j]).unit != unit@,
    ensures
        s.state == State::Available ==> pass_begun(
            ReconcileTrigger::ManualStart { unit },
            s,
            cfg,
        ).2 == PassAction::StartUnit(i as usize),
        pass_begun(ReconcileTrigger::ManualStop { unit }, s, cfg).2 == PassAction::EvictUnit(
            i as usize,
        ),
{
    crate::units::first_of_the_name_is_found(cfg.units, unit@, i);
}

/// The instant of the state is that of its last change: a step that changes the
/// state sets it to now, and no other step touches it.
pub proof fn state_keeps_its_instant(
    p: PassView,
    s: StateView,
    cfg: ConfigView,
    ev: PassEventView,
    now: UnixTime,
)
    requires
        pass_wf(p, s, cfg),
        pass_awaits(p.phase, ev),
    ensures
        ({
            let n = pass_next(p, s, cfg, ev, now).1;
            n.since == (if n.state != s.state {
                now
            } else {
                s.since
            })
        }),
{
}

/// A step leaves alone what a pass does not read: the statuses, the memory and the
/// desk are read anew only by a refresh.
pub proof fn pass_leaves_the_statuses(
    p: PassView,
    s: StateView,
    cfg: ConfigView,
    ev: PassEventView,
    now: UnixTime,
)
    ensures
        ({
            let n = pass_next(p, s, cfg, ev, now).1;
            &&& n.units == s.units
            &&& n.presence == s.presence
            &&& n.gpu_vram_used_mb == s.gpu_vram_used_mb
            &&& n.gpu_vram_total_mb == s.gpu_vram_total_mb
            &&& n.metrics.passes == s.metrics.passes
        }),
{
    lemma_next_keeps(p, s, cfg, ev, now);
    lemma_passes_stay(p, s, cfg, ev);
}

/// Starts are counted where they succeeded, for the unit that was started, and an
/// end of an eviction counts no start.
pub proof fn only_good_starts_are_counted(
    p: PassView,
    s: StateView,
    cfg: ConfigView,
    ev: PassEventView,
    now: UnixTime,
    unit: Seq<char>,
)
    requires
        s.metrics.has_room(),
        pass_awaits(p.phase, ev),
    ensures
        ({
            let n = pass_next(p, s, cfg, ev, now).1.metrics;
            let started = ev == PassEventView::Started(true) && unit == (if p.phase
                == PassPhase::ManualStart {
                p.unit
            } else {
                cfg.units[p.list[p.pos as int] as int].unit
            });
            n.restarts_of(unit) == s.metrics.restarts_of(unit) + (if started {
                1int
            } else {
                0int
            })
        }),
{
    lemma_next_keeps(p, s, cfg, ev, now);
    lemma_starts_counted(p, s, cfg, ev, unit);
}

/// The end of an eviction is counted once, for the unit that was evicted: as a
/// yield, a graceful end, a kill or an error. One of a unit that did not run is not
/// counted at all.
pub proof fn every_eviction_is_counted(
    p: PassView,
    s: StateView,
    cfg: ConfigView,
    r: Result<EvictionOutcome, ()>,
    t: EvictionTimings,
    now: UnixTime,
    unit: Seq<char>,
)
    requires
        s.metrics.has_room(),
        p.phase == PassPhase::ManualStop || p.phase == PassPhase::EvictingForGame || p.phase
            == PassPhase::Preempting,
    ensures
        ({
            let n = pass_next(p, s, cfg, PassEventView::Evicted(r, t), now).1.metrics;
            let (a, b) = (s.metrics.evictions_of(unit), n.evictions_of(unit));
            let evicted = if p.phase == PassPhase::ManualStop {
                p.unit
            } else {
                cfg.units[p.list[p.pos as int] as int].unit
            };
            let one = |o: Result<EvictionOutcome, ()>|
                if unit == evicted && r == o {
                    1int
                } else {
                    0int
                };
            &&& b.yielded == a.yielded + one(Ok(EvictionOutcome::Yielded))
            &&& b.graceful == a.graceful + one(Ok(EvictionOutcome::Freed))
            &&& b.sigkill == a.sigkill + one(Ok(EvictionOutcome::Escalated))
            &&& b.error == a.error + (if unit == evicted && r is Err {
                1int
            } else {
                0int
            })
        }),
{
    let ev = PassEventView::Evicted(r, t);
    lemma_next_keeps(p, s, cfg, ev, now);
    let evicted = if p.phase == PassPhase::ManualStop {
        p.unit
    } else {
        name_at(cfg, p.list[p.pos as int])
    };
    lemma_one_eviction(s.metrics, evicted, r, t, unit);
}

/// The stages of an eviction in a pass are timed where they came about, and all of
/// it is; unless the unit did not run.
pub proof fn every_eviction_is_timed(
    p: PassView,
    s: StateView,
    cfg: ConfigView,
    r: Result<EvictionOutcome, ()>,
    t: EvictionTimings,
    now: UnixTime,
    stage: EvictionStage,
)
    requires
        s.metrics.wf(),
        s.metrics.has_room(),
        p.phase == PassPhase::EvictingForGame || p.phase == PassPhase::Preempting,
    ensures
        ({
            let n = pass_next(p, s, cfg, PassEventView::Evicted(r, t), now).1.metrics;
            let unit = cfg.units[p.list[p.pos as int] as int].unit;
            let took = match stage {
                EvictionStage::Yield => t.yield_nanos,
                EvictionStage::Stop => t.stop_nanos,
                EvictionStage::Total => Some(t.total_nanos),
            };
            let (a, b) = (
                crate::metrics::seen_in(s.metrics.durations_of(unit).stage(stage)),
                crate::metrics::seen_in(n.durations_of(unit).stage(stage)),
            );
            if took is Some && r != Ok::<EvictionOutcome, ()>(EvictionOutcome::AlreadyClear) {
                b == (a.0 + 1, a.1 + took->0 as int)
            } else {
                b == a
            }
        }),
{
    lemma_next_keeps(p, s, cfg, PassEventView::Evicted(r, t), now);
    lemma_one_timing(s.metrics, name_at(cfg, p.list[p.pos as int]), r, t, stage);
}

proof fn lemma_passes_stay(p: PassView, s: StateView, cfg: ConfigView, ev: PassEventView)
    ensures
        metrics_next(p, s, cfg, ev).passes == s.metrics.passes,
{
}

proof fn lemma_starts_counted(
    p: PassView,
    s: StateView,
    cfg: ConfigView,
    ev: PassEventView,
    unit: Seq<char>,
)
    requires
        s.metrics.has_room(),
        pass_awaits(p.phase, ev),
    ensures
        ({
            let started = ev == PassEventView::Started(true) && unit == (if p.phase
                == PassPhase::ManualStart {
                p.unit
            } else {
                cfg.units[p.list[p.pos as int] as int].unit
            });
            metrics_next(p, s, cfg, ev).restarts_of(unit) == s.metrics.restarts_of(unit) + (
            if started {
                1int
            } else {
                0int
            })
        }),
{
    crate::metrics::start_is_counted_once(s.metrics, p.unit, unit);
    if p.phase == PassPhase::Starting {
        crate::metrics::start_is_counted_once(
            s.metrics,
            name_at(cfg, p.list[p.pos as int]),
            unit,
        );
    }
}

proof fn lemma_one_eviction(
    m: MetricsView,
    evicted: Seq<char>,
    r: Result<EvictionOutcome, ()>,
    t: EvictionTimings,
    unit: Seq<char>,
)
    requires
        m.has_room(),
    ensures
        ({
            let a = m.evictions_of(unit);
            let b = eviction_counted(m, evicted, r, t).evictions_of(unit);
            let c = (match metric_of(r) {
                Some(o) => m.with_eviction(evicted, o),
                None => m,
            }).evictions_of(unit);
            &&& b == c
            &&& b.yielded == a.yielded + (if unit == evicted && r == Ok::<EvictionOutcome, ()>(
                EvictionOutcome::Yielded,
            ) {
                1int
            } else {
                0int
            })
            &&& b.graceful == a.graceful + (if unit == evicted && r == Ok::<EvictionOutcome, ()>(
                EvictionOutcome::Freed,
            ) {
                1int
            } else {
                0int
            })
            &&& b.sigkill == a.sigkill + (if unit == evicted && r == Ok::<EvictionOutcome, ()>(
                EvictionOutcome::Escalated,
            ) {
                1int
            } else {
                0int
            })
            &&& b.error == a.error + (if unit == evicted && r is Err {
                1int
            } else {
                0int
            })
        }),
{
    match metric_of(r) {
        Some(o) => crate::metrics::eviction_is_counted_once(m, evicted, o, unit),
        None => {},
    }
}

proof fn lemma_one_timing(
    m: MetricsView,
    unit: Seq<char>,
    r: Result<EvictionOutcome, ()>,
    t: EvictionTimings,
    stage: EvictionStage,
)
    requires
        m.wf(),
        m.has_room(),
    ensures
        ({
            let n = eviction_counted(m, unit, r, t);
            let took = match stage {
                EvictionStage::Yield => t.yield_nanos,
                EvictionStage::Stop => t.stop_nanos,
                EvictionStage::Total => Some(t.total_nanos),
            };
            let (a, b) = (
                crate::metrics::seen_in(m.durations_of(unit).stage(stage)),
                crate::metrics::seen_in(n.durations_of(unit).stage(stage)),
            );
            if took is Some && r != Ok::<EvictionOutcome, ()>(EvictionOutcome::AlreadyClear) {
                b == (a.0 + 1, a.1 + took->0 as int)
            } else {
                b == a
            }
        }),
{
    let took = match stage {
        EvictionStage::Yield => t.yield_nanos,
        EvictionStage::Stop => t.stop_nanos,
        EvictionStage::Total => Some(t.total_nanos),
    };
    if took is Some {
        crate::metrics::duration_is_counted_once(m, unit, stage, took->0, unit, stage, 0);
    }
    let before = m.durations_of(unit).stage(stage);
    let n = eviction_counted(m, unit, r, t);
    let after = n.durations_of(unit).stage(stage);
    if metric_of(r) is Some {
        match took {
            Some(x) => {
                assert(after == m.with_duration(unit, stage, x).durations_of(unit).stage(stage));
            },
            None => {
                assert(after == before);
            },
        }
    }
}

/// The evictions for a game begin with the first unit that may not run, with nothing failed
/// so far, and with the state evicting; where there is no such unit, the game has the GPU at
/// once.
pub proof fn eviction_for_a_game_begins_clean(
    p: PassView,
    s: StateView,
    cfg: ConfigView,
    now: UnixTime,
)
    requires
        s.state == State::Available,
        p.claims.len() > 0,
    ensures
        ({
            let n = decided(p, s, cfg, now);
            let list = below(cfg.units, demand_of(p.claims, cfg, priorities_at(cfg, p.busy)));
            &&& !n.0.failed
            &&& n.1.claims == p.claims
            &&& list.len() > 0 ==> n.2 == PassAction::EvictUnit(list[0]) && n.1.state
                == State::Evicting && n.0.list == list && n.0.pos == 0 && n.1.degraded == s.degraded
            &&& list.len() == 0 ==> n.1.state == State::Gaming && n.2 == PassAction::Refresh
                && !n.1.degraded
        }),
{
}

/// An operator's request for a unit that is not managed fails: a start changes nothing, and
/// a stop is counted as an error.
pub proof fn unmanaged_unit_is_refused(unit: String, s: StateView, cfg: ConfigView)
    requires
        s.state == State::Available,
        s.metrics.has_room(),
        forall|j: int| 0 <= j < cfg.units.len() ==> (#[trigger] cfg.units[j]).unit != unit@,
    ensures
        ({
            let a = pass_begun(ReconcileTrigger::ManualStart { unit }, s, cfg);
            let b = pass_begun(ReconcileTrigger::ManualStop { unit }, s, cfg);
            &&& a.2 == PassAction::Reply(Err(ManualActionError::Failed))
            &&& b.2 == PassAction::Reply(Err(ManualActionError::Failed))
            &&& a.1.metrics.evictions_of(unit@) == s.metrics.evictions_of(unit@)
            &&& b.1.metrics.evictions_of(unit@).error == s.metrics.evictions_of(unit@).error + 1
        }),
{
    crate::units::unknown_name_is_not_found(cfg.units, unit@);
    crate::metrics::eviction_is_counted_once(
        s.metrics,
        unit@,
        crate::units::EvictionMetricOutcome::Error,
        unit@,
    );
    let b = pass_begun(ReconcileTrigger::ManualStop { unit }, s, cfg);
    assert(b.1.metrics.evictions == s.metrics.with_eviction(
        unit@,
        crate::units::EvictionMetricOutcome::Error,
    ).evictions);
}

/// A pass that cannot observe gives up and leaves the state as it is; so does one that
/// cannot observe a second time, with no unit started.
pub proof fn blind_pass_gives_up(p: PassView, s: StateView, cfg: ConfigView, now: UnixTime)
    requires
        p.phase == PassPhase::Observing || p.phase == PassPhase::Reobserving,
    ensures
        pass_next(p, s, cfg, PassEventView::ObserveFailed, now).2 == PassAction::GiveUp,
        pass_next(p, s, cfg, PassEventView::ObserveFailed, now).1 == s,
        pass_next(p, s, cfg, PassEventView::ObserveFailed, now).0.phase == PassPhase::Done,
{
}

} // verus!
