//! Whole passes: what was asked for and what came of it, from the first step on.

use vstd::prelude::*;

use crate::config::ConfigView;
use crate::ladder::{below, demand_of, lemma_below, lemma_wanted, targets_of, wanted_up};
use crate::observe::{claims_of, ObservationView};
use crate::pass::{
    decided, ensuring, pass_awaits, pass_begun, pass_next, pass_settled, pass_stays_wf, pass_wf,
    priorities_at, probing, settled, PassAction, PassEventView, PassPhase, PassView,
};
use crate::state::{ArbiterState, ReconcileTrigger, State, StateView, UnixTime};

verus! {

/// What a pass is told, and when.
pub struct Told {
    pub ev: PassEventView,
    pub now: UnixTime,
}

/// How a pass was set off, and where.
pub struct Setting {
    pub trigger: ReconcileTrigger,
    pub state: StateView,
    pub cfg: ConfigView,
}

/// Where a pass stands once it was told all this.
pub open spec fn run(x: Setting, told: Seq<Told>) -> (PassView, StateView, PassAction)
    decreases told.len(),
{
    if told.len() == 0 {
        pass_begun(x.trigger, x.state, x.cfg)
    } else {
        let r = run(x, told.drop_last());
        pass_next(r.0, r.1, x.cfg, told.last().ev, told.last().now)
    }
}

/// The pass was always told what it waited for.
pub open spec fn in_turn(x: Setting, told: Seq<Told>) -> bool
    decreases told.len(),
{
    told.len() == 0 || (in_turn(x, told.drop_last()) && pass_awaits(
        run(x, told.drop_last()).0.phase,
        told.last().ev,
    ))
}

/// The pass has asked for this.
#[verifier::opaque]
pub open spec fn asked(x: Setting, told: Seq<Told>, a: PassAction) -> bool {
    exists|k: int| 0 <= k <= told.len() && (#[trigger] run(x, told.take(k))).2 == a
}

/// The pass has asked for this and was told that.
#[verifier::opaque]
pub open spec fn answered(x: Setting, told: Seq<Told>, a: PassAction, ev: PassEventView) -> bool {
    exists|k: int|
        0 <= k < told.len() && (#[trigger] run(x, told.take(k))).2 == a && told[k].ev == ev
}

/// A second look showed that something claims the GPU.
#[verifier::opaque]
pub open spec fn late_claim(x: Setting, told: Seq<Told>) -> bool {
    exists|k: int|
        0 <= k < told.len() && (#[trigger] run(x, told.take(k))).0.phase == PassPhase::Reobserving
            && told[k].ev is Observed && claims_of(told[k].ev->Observed_0, x.cfg).len() > 0
}

/// A unit has said that it has work.
pub open spec fn busy(x: Setting, told: Seq<Told>, j: usize) -> bool {
    answered(x, told, PassAction::ProbeBusy(j), PassEventView::Busy(true))
}

/// A unit was found to be down.
pub open spec fn found_down(x: Setting, told: Seq<Told>, i: usize) -> bool {
    answered(x, told, PassAction::QueryRunning(i), PassEventView::Running(Some(false)))
}

/// A unit was found to be up.
pub open spec fn found_up(x: Setting, told: Seq<Told>, i: usize) -> bool {
    answered(x, told, PassAction::QueryRunning(i), PassEventView::Running(Some(true)))
}

proof fn lemma_asked_now(x: Setting, told: Seq<Told>)
    ensures
        asked(x, told, run(x, told).2),
{
    reveal(asked);
    assert(told.take(told.len() as int) =~= told);
    assert(run(x, told.take(told.len() as int)).2 == run(x, told).2);
}

proof fn lemma_asked_stays(x: Setting, told: Seq<Told>, a: PassAction)
    requires
        told.len() > 0,
    ensures
        asked(x, told, a) == (asked(x, told.drop_last(), a) || run(x, told).2 == a),
{
    reveal(asked);
    let t = told.drop_last();
    if asked(x, t, a) {
        let k = choose|k: int| 0 <= k <= t.len() && (#[trigger] run(x, t.take(k))).2 == a;
        assert(told.take(k) =~= t.take(k));
        assert(run(x, told.take(k)).2 == a);
    }
    lemma_asked_now(x, told);
    if asked(x, told, a) {
        let k = choose|k: int| 0 <= k <= told.len() && (#[trigger] run(x, told.take(k))).2 == a;
        if k == told.len() {
            assert(told.take(k) =~= told);
        } else {
            assert(told.take(k) =~= t.take(k));
            assert(run(x, t.take(k)).2 == a);
        }
    }
}

proof fn lemma_answered_stays(x: Setting, told: Seq<Told>, a: PassAction, ev: PassEventView)
    requires
        told.len() > 0,
    ensures
        answered(x, told, a, ev) == (answered(x, told.drop_last(), a, ev) || (run(
            x,
            told.drop_last(),
        ).2 == a && told.last().ev == ev)),
{
    reveal(answered);
    let t = told.drop_last();
    let n = t.len() as int;
    assert(told.take(n) =~= t);
    if answered(x, t, a, ev) {
        let k = choose|k: int|
            0 <= k < t.len() && (#[trigger] run(x, t.take(k))).2 == a && t[k].ev == ev;
        assert(told.take(k) =~= t.take(k));
        assert(run(x, told.take(k)).2 == a && told[k].ev == ev);
    }
    if run(x, t).2 == a && told.last().ev == ev {
        assert(run(x, told.take(n)).2 == a && told[n].ev == ev);
    }
    if answered(x, told, a, ev) {
        let k = choose|k: int|
            0 <= k < told.len() && (#[trigger] run(x, told.take(k))).2 == a && told[k].ev == ev;
        if k < n {
            assert(told.take(k) =~= t.take(k));
            assert(run(x, t.take(k)).2 == a && t[k].ev == ev);
        }
    }
}

proof fn lemma_late_stays(x: Setting, told: Seq<Told>)
    requires
        told.len() > 0,
    ensures
        late_claim(x, told.drop_last()) ==> late_claim(x, told),
        run(x, told.drop_last()).0.phase == PassPhase::Reobserving && told.last().ev is Observed
            && claims_of(told.last().ev->Observed_0, x.cfg).len() > 0 ==> late_claim(x, told),
{
    reveal(late_claim);
    let t = told.drop_last();
    let n = t.len() as int;
    assert(told.take(n) =~= t);
    if late_claim(x, t) {
        let k = choose|k: int|
            0 <= k < t.len() && (#[trigger] run(x, t.take(k))).0.phase == PassPhase::Reobserving
                && t[k].ev is Observed && claims_of(t[k].ev->Observed_0, x.cfg).len() > 0;
        assert(told.take(k) =~= t.take(k));
        assert(run(x, told.take(k)).0.phase == PassPhase::Reobserving && told[k].ev is Observed);
    }
    if run(x, t).0.phase == PassPhase::Reobserving && told.last().ev is Observed && claims_of(
        told.last().ev->Observed_0,
        x.cfg,
    ).len() > 0 {
        assert(run(x, told.take(n)).0.phase == PassPhase::Reobserving && told[n].ev is Observed);
    }
}

// ── what holds through a pass ──────────────────────────────────────────────

/// The claims of the pass are those of an observation that it was told.
spec fn saw(x: Setting, told: Seq<Told>, p: PassView) -> bool {
    exists|o: ObservationView| #[trigger]
        answered(x, told, PassAction::Observe, PassEventView::Observed(o)) && p.claims == claims_of(
            o,
            x.cfg,
        )
}

/// The busy units of the pass are those that said so, and the first `n` were asked.
spec fn probed(x: Setting, told: Seq<Told>, p: PassView, n: int) -> bool {
    &&& forall|j: usize| j < n ==> #[trigger] asked(x, told, PassAction::ProbeBusy(j))
    &&& forall|j: usize| p.busy.contains(j) <==> #[trigger] busy(x, told, j)
}

spec fn evicted_all(x: Setting, told: Seq<Told>, at: Seq<usize>, n: int) -> bool {
    forall|j: int| 0 <= j < n ==> asked(x, told, PassAction::EvictUnit(#[trigger] at[j]))
}

/// Where a game came to a free GPU, every unit below the demand was evicted.
spec fn gamed(x: Setting, told: Seq<Told>, p: PassView) -> bool {
    x.state.state == State::Available && p.desired == State::Gaming ==> evicted_all(
        x,
        told,
        p.preempted,
        p.preempted.len() as int,
    )
}

/// Where no game runs, every unit below the demand is down or was evicted.
spec fn cleared(x: Setting, told: Seq<Told>, p: PassView) -> bool {
    p.desired == State::Available ==> forall|j: int|
        0 <= j < p.preempted.len() ==> found_down(x, told, #[trigger] p.preempted[j]) || asked(
            x,
            told,
            PassAction::EvictUnit(p.preempted[j]),
        )
}

spec fn targets(x: Setting, p: PassView, s: StateView) -> Seq<usize> {
    targets_of(State::Available, x.cfg.units, s.held, p.preempted)
}

spec fn handled(x: Setting, told: Seq<Told>, t: usize, picked: Seq<usize>) -> bool {
    asked(x, told, PassAction::Resume(t)) && (found_up(x, told, t) || picked.contains(t))
}

spec fn all_handled(
    x: Setting,
    told: Seq<Told>,
    list: Seq<usize>,
    n: int,
    picked: Seq<usize>,
) -> bool {
    forall|j: int| 0 <= j < n ==> handled(x, told, #[trigger] list[j], picked)
}

/// Where no game runs, every unit that is to be up was resumed, and is up or was
/// started, unless a second look showed a claim.
spec fn restored(x: Setting, told: Seq<Told>, p: PassView, s: StateView) -> bool {
    p.desired == State::Available ==> forall|j: int|
        0 <= j < targets(x, p, s).len() ==> {
            let t = #[trigger] targets(x, p, s)[j];
            asked(x, told, PassAction::Resume(t)) && (found_up(x, told, t) || asked(
                x,
                told,
                PassAction::StartUnit(t),
            ) || late_claim(x, told))
        }
}

spec fn decided_on(x: Setting, told: Seq<Told>, p: PassView, s: StateView) -> bool {
    &&& saw(x, told, p)
    &&& probed(x, told, p, x.cfg.units.len() as int)
    &&& pass_settled(p, s, x.cfg)
    &&& crate::pass::lists_in_range(p, x.cfg)
}

/// What holds of a pass by what it asked for and was told.
spec fn history(x: Setting, told: Seq<Told>) -> bool {
    let r = run(x, told);
    let (p, s, a) = (r.0, r.1, r.2);
    &&& pass_wf(p, s, x.cfg)
    &&& p.list.len() <= x.cfg.units.len()
    &&& match p.phase {
        PassPhase::ManualStart => a is StartUnit,
        PassPhase::ManualStop => a is EvictUnit,
        PassPhase::Replied => a is Reply,
        PassPhase::Observing => a is Observe,
        PassPhase::Probing => a == PassAction::ProbeBusy(p.pos) && saw(x, told, p) && probed(
            x,
            told,
            p,
            p.pos as int,
        ) && p.list.len() == 0 && p.picked.len() == 0 && p.preempted.len() == 0,
        PassPhase::EvictingForGame => {
            &&& x.state.state == State::Available
            &&& saw(x, told, p)
            &&& probed(x, told, p, x.cfg.units.len() as int)
            &&& p.list == p.preempted
            &&& a == PassAction::EvictUnit(p.list[p.pos as int])
            &&& evicted_all(x, told, p.list, p.pos + 1)
        },
        PassPhase::CheckingPreempted => {
            &&& decided_on(x, told, p, s)
            &&& p.list == p.preempted
            &&& a == PassAction::QueryRunning(p.list[p.pos as int])
            &&& p.picked.len() <= p.pos
            &&& forall|j: int|
                0 <= j < p.pos ==> found_down(x, told, #[trigger] p.list[j]) || p.picked.contains(
                    p.list[j],
                )
        },
        PassPhase::Preempting => {
            &&& decided_on(x, told, p, s)
            &&& a == PassAction::EvictUnit(p.list[p.pos as int])
            &&& evicted_all(x, told, p.list, p.pos + 1)
            &&& forall|j: int|
                0 <= j < p.preempted.len() ==> found_down(x, told, #[trigger] p.preempted[j])
                    || p.list.contains(p.preempted[j])
        },
        PassPhase::Resuming => {
            &&& decided_on(x, told, p, s)
            &&& cleared(x, told, p)
            &&& p.list == targets(x, p, s)
            &&& a == PassAction::Resume(p.list[p.pos as int])
            &&& p.picked.len() <= p.pos
            &&& all_handled(x, told, p.list, p.pos as int, p.picked)
        },
        PassPhase::CheckingTarget => {
            &&& decided_on(x, told, p, s)
            &&& cleared(x, told, p)
            &&& p.list == targets(x, p, s)
            &&& a == PassAction::QueryRunning(p.list[p.pos as int])
            &&& asked(x, told, PassAction::Resume(p.list[p.pos as int]))
            &&& p.picked.len() <= p.pos
            &&& all_handled(x, told, p.list, p.pos as int, p.picked)
        },
        PassPhase::Reobserving => {
            &&& decided_on(x, told, p, s)
            &&& cleared(x, told, p)
            &&& p.list == targets(x, p, s)
            &&& a == PassAction::Observe
            &&& p.picked.len() <= p.list.len()
            &&& all_handled(x, told, p.list, p.list.len() as int, p.picked)
        },
        PassPhase::Starting => {
            &&& decided_on(x, told, p, s)
            &&& cleared(x, told, p)
            &&& a == PassAction::StartUnit(p.list[p.pos as int])
            &&& forall|j: int|
                0 <= j <= p.pos ==> asked(x, told, PassAction::StartUnit(#[trigger] p.list[j]))
            &&& all_handled(
                x,
                told,
                targets(x, p, s),
                targets(x, p, s).len() as int,
                p.list,
            )
        },
        PassPhase::Refreshing => {
            &&& a == PassAction::Refresh
            &&& decided_on(x, told, p, s)
            &&& gamed(x, told, p)
            &&& cleared(x, told, p)
            &&& restored(x, told, p, s)
        },
        PassPhase::Done => (a is GiveUp && (s.state == x.state.state || s.state == State::Available))
            || (a is Finish && decided_on(x, told, p, s) && gamed(
            x,
            told,
            p,
        ) && cleared(x, told, p) && restored(x, told, p, s)),
    }
    &&& p.phase == PassPhase::ManualStart || p.phase == PassPhase::ManualStop || p.phase
        == PassPhase::Replied || p.phase == PassPhase::Observing ==> {
        &&& forall|j: usize| !#[trigger] asked(x, told, PassAction::ProbeBusy(j))
        &&& forall|j: usize| !#[trigger] busy(x, told, j)
        &&& p.list.len() == 0 && p.picked.len() == 0 && p.preempted.len() == 0 && p.busy.len() == 0
    }
    &&& p.phase == PassPhase::ManualStart || p.phase == PassPhase::ManualStop || p.phase
        == PassPhase::Replied || p.phase == PassPhase::Observing || p.phase == PassPhase::Probing
        ==> s.state == x.state.state
}

/// What one more step leaves of what was asked for and told.
proof fn lemma_lift(x: Setting, told: Seq<Told>)
    requires
        told.len() > 0,
    ensures
        forall|a: PassAction| #[trigger]
            asked(x, told, a) == (asked(x, told.drop_last(), a) || run(x, told).2 == a),
        forall|a: PassAction, ev: PassEventView| #[trigger]
            answered(x, told, a, ev) == (answered(x, told.drop_last(), a, ev) || (run(
                x,
                told.drop_last(),
            ).2 == a && told.last().ev == ev)),
        late_claim(x, told.drop_last()) ==> late_claim(x, told),
        run(x, told.drop_last()).0.phase == PassPhase::Reobserving && told.last().ev is Observed
            && claims_of(told.last().ev->Observed_0, x.cfg).len() > 0 ==> late_claim(x, told),
{
    assert forall|a: PassAction| #[trigger]
        asked(x, told, a) == (asked(x, told.drop_last(), a) || run(x, told).2 == a) by {
        lemma_asked_stays(x, told, a);
    }
    assert forall|a: PassAction, ev: PassEventView| #[trigger]
        answered(x, told, a, ev) == (answered(x, told.drop_last(), a, ev) || (run(
            x,
            told.drop_last(),
        ).2 == a && told.last().ev == ev)) by {
        lemma_answered_stays(x, told, a, ev);
    }
    lemma_late_stays(x, told);
}

proof fn lemma_ensuring_history(x: Setting, told: Seq<Told>, p: PassView, s: StateView)
    requires
        x.cfg.units.len() <= usize::MAX,
        run(x, told) == ensuring(p, s, x.cfg),
        pass_wf(run(x, told).0, s, x.cfg),
        p.list.len() <= x.cfg.units.len(),
        decided_on(x, told, p, s),
        gamed(x, told, p),
        cleared(x, told, p),
    ensures
        history(x, told),
{
    lemma_asked_now(x, told);
    lemma_wanted(x.cfg.units, s.held, p.preempted, x.cfg.units.len() as int);
    let q = run(x, told).0;
    assert(p.desired != State::Available ==> targets_of(
        p.desired,
        x.cfg.units,
        s.held,
        p.preempted,
    ).len() == 0);
    assert(saw(x, told, q));
    assert(probed(x, told, q, x.cfg.units.len() as int));
}

proof fn lemma_settled_history(x: Setting, told: Seq<Told>, p: PassView, s: StateView)
    requires
        x.cfg.units.len() <= usize::MAX,
        run(x, told) == settled(p, s, x.cfg),
        pass_wf(run(x, told).0, s, x.cfg),
        p.list.len() <= x.cfg.units.len(),
        p.preempted.len() <= x.cfg.units.len(),
        decided_on(x, told, p, s),
        gamed(x, told, p),
    ensures
        history(x, told),
{
    lemma_asked_now(x, told);
    if p.desired == State::Available && p.preempted.len() > 0 {
        let q = run(x, told).0;
        assert(saw(x, told, q));
        assert(probed(x, told, q, x.cfg.units.len() as int));
    } else {
        assert(cleared(x, told, p));
        lemma_ensuring_history(x, told, p, s);
    }
}

proof fn lemma_probing_history(
    x: Setting,
    told: Seq<Told>,
    p: PassView,
    s: StateView,
    now: UnixTime,
)
    requires
        x.cfg.units.len() <= usize::MAX,
        run(x, told) == probing(p, s, x.cfg, now),
        pass_wf(run(x, told).0, run(x, told).1, x.cfg),
        s.state == x.state.state,
        saw(x, told, p),
        probed(x, told, p, p.pos as int),
        p.pos <= x.cfg.units.len(),
        crate::pass::lists_in_range(p, x.cfg),
        p.list.len() == 0,
        p.picked.len() == 0,
        p.preempted.len() == 0,
    ensures
        history(x, told),
{
    lemma_asked_now(x, told);
    let r = run(x, told);
    if p.pos < x.cfg.units.len() {
        assert(saw(x, told, r.0));
        assert(probed(x, told, r.0, r.0.pos as int));
    } else {
        let cfg = x.cfg;
        let demand = demand_of(p.claims, cfg, priorities_at(cfg, p.busy));
        lemma_below(cfg.units, demand);
        let desired = ArbiterState::resolved(p.claims);
        let q = PassView { preempted: below(cfg.units, demand), desired, failed: false, ..p };
        let t = StateView { claims: p.claims, ..s };
        assert(r == decided(p, s, cfg, now));
        assert(saw(x, told, q));
        assert(probed(x, told, q, cfg.units.len() as int));
        if s.state == State::Available && desired == State::Gaming {
            let e = t.entered(State::Evicting, now);
            if q.preempted.len() == 0 {
                let g = (StateView { degraded: q.failed, ..e }).entered(State::Gaming, now);
                assert(r == settled(q, g, cfg));
                lemma_settled_history(x, told, q, g);
            } else {
                assert(saw(x, told, r.0));
                assert(probed(x, told, r.0, cfg.units.len() as int));
            }
        } else {
            let d = if desired == State::Available {
                false
            } else {
                t.degraded
            };
            let g = (StateView { degraded: d, ..t }).entered(desired, now);
            assert(r == settled(q, g, cfg));
            assert(gamed(x, told, q));
            lemma_settled_history(x, told, q, g);
        }
    }
}

proof fn lemma_begun_history(x: Setting)
    requires
        x.cfg.units.len() <= usize::MAX,
    ensures
        history(x, Seq::empty()),
{
    reveal(asked);
    reveal(answered);
    let e = Seq::<Told>::empty();
    assert forall|j: usize| !#[trigger] asked(x, e, PassAction::ProbeBusy(j)) by {
        if asked(x, e, PassAction::ProbeBusy(j)) {
            let k = choose|k: int|
                0 <= k <= e.len() && (#[trigger] run(x, e.take(k))).2 == PassAction::ProbeBusy(j);
            assert(e.take(k) =~= e);
        }
    }
}

proof fn lemma_history(x: Setting, told: Seq<Told>)
    requires
        x.cfg.units.len() <= usize::MAX,
        in_turn(x, told),
    ensures
        history(x, told),
    decreases told.len(),
{
    if told.len() == 0 {
        assert(told =~= Seq::empty());
        lemma_begun_history(x);
    } else {
        lemma_history(x, told.drop_last());
        lemma_step_history(x, told);
    }
}

proof fn lemma_step_observing(x: Setting, told: Seq<Told>)
    requires
        x.cfg.units.len() <= usize::MAX,
        told.len() > 0,
        history(x, told.drop_last()),
        pass_awaits(run(x, told.drop_last()).0.phase, told.last().ev),
        run(x, told.drop_last()).0.phase == PassPhase::Observing,
        told.last().ev is Observed,
    ensures
        history(x, told),
{
    let t = told.drop_last();
    let cfg = x.cfg;
    let (p, s) = (run(x, t).0, run(x, t).1);
    let (ev, now) = (told.last().ev, told.last().now);
    let r = run(x, told);
    pass_stays_wf(p, s, cfg, ev, now);
    lemma_lift(x, told);
    lemma_asked_now(x, told);
    let o = ev->Observed_0;
        let q = PassView { claims: claims_of(o, cfg), busy: Seq::empty(), pos: 0, ..p };
        assert(answered(x, told, PassAction::Observe, PassEventView::Observed(o)));
        assert(saw(x, told, q));
        assert forall|j: usize| q.busy.contains(j) <==> #[trigger] busy(x, told, j) by {
            assert(!busy(x, t, j));
        }
        assert(probed(x, told, q, 0));
        lemma_probing_history(x, told, q, s, now);
}

proof fn lemma_step_probing(x: Setting, told: Seq<Told>)
    requires
        x.cfg.units.len() <= usize::MAX,
        told.len() > 0,
        history(x, told.drop_last()),
        pass_awaits(run(x, told.drop_last()).0.phase, told.last().ev),
        run(x, told.drop_last()).0.phase == PassPhase::Probing,
        told.last().ev is Busy,
    ensures
        history(x, told),
{
    let t = told.drop_last();
    let cfg = x.cfg;
    let (p, s) = (run(x, t).0, run(x, t).1);
    let (ev, now) = (told.last().ev, told.last().now);
    let r = run(x, told);
    pass_stays_wf(p, s, cfg, ev, now);
    lemma_lift(x, told);
    lemma_asked_now(x, told);
    let b = ev->Busy_0;
        let w = if b {
            PassView { busy: p.busy.push(p.pos), ..p }
        } else {
            p
        };
        let q = crate::pass::further(w);
        lemma_saw_stays(x, told, p, q);
        assert forall|j: usize| q.busy.contains(j) <==> #[trigger] busy(x, told, j) by {
            assert(p.busy.contains(j) <==> busy(x, t, j));
            assert(p.busy.push(p.pos).contains(j) <==> p.busy.contains(j) || j == p.pos) by {
                lemma_push_contains(p.busy, p.pos, j);
            }
        }
        assert forall|j: usize| j < q.pos implies #[trigger] asked(
            x,
            told,
            PassAction::ProbeBusy(j),
        ) by {
            if j == p.pos {
                lemma_asked_now(x, t);
            }
        }
        lemma_probing_history(x, told, q, s, now);
}

proof fn lemma_step_evicting_for_game(x: Setting, told: Seq<Told>)
    requires
        x.cfg.units.len() <= usize::MAX,
        told.len() > 0,
        history(x, told.drop_last()),
        pass_awaits(run(x, told.drop_last()).0.phase, told.last().ev),
        run(x, told.drop_last()).0.phase == PassPhase::EvictingForGame,
        told.last().ev is Evicted,
    ensures
        history(x, told),
{
    let t = told.drop_last();
    let cfg = x.cfg;
    let (p, s) = (run(x, t).0, run(x, t).1);
    let (ev, now) = (told.last().ev, told.last().now);
    let r = run(x, told);
    pass_stays_wf(p, s, cfg, ev, now);
    lemma_lift(x, told);
    lemma_asked_now(x, told);
    let res = ev->Evicted_0;
    let tm = ev->Evicted_1;
        let c = crate::pass::counted_in(
            s,
            crate::pass::name_at(cfg, p.list[p.pos as int]),
            res,
            tm,
        );
        let q = crate::pass::further(PassView { failed: p.failed || res is Err, ..p });
        lemma_saw_stays(x, told, p, q);
        lemma_probed_stays(x, told, p, q, cfg.units.len() as int);
        assert(evicted_all(x, told, q.list, q.pos as int));
        if q.pos < q.list.len() {
            assert(evicted_all(x, told, q.list, q.pos + 1));
        } else {
            let g = (StateView { degraded: q.failed, ..c }).entered(State::Gaming, now);
            lemma_settled_history(x, told, q, g);
        }
}

proof fn lemma_step_checking_preempted(x: Setting, told: Seq<Told>)
    requires
        x.cfg.units.len() <= usize::MAX,
        told.len() > 0,
        history(x, told.drop_last()),
        pass_awaits(run(x, told.drop_last()).0.phase, told.last().ev),
        run(x, told.drop_last()).0.phase == PassPhase::CheckingPreempted,
        told.last().ev is Running,
    ensures
        history(x, told),
{
    let t = told.drop_last();
    let cfg = x.cfg;
    let (p, s) = (run(x, t).0, run(x, t).1);
    let (ev, now) = (told.last().ev, told.last().now);
    let r = run(x, told);
    pass_stays_wf(p, s, cfg, ev, now);
    lemma_lift(x, told);
    lemma_asked_now(x, told);
    let run_state = ev->Running_0;
        let i = p.list[p.pos as int];
        let w = if run_state == Some(false) {
            p
        } else {
            PassView { picked: p.picked.push(i), ..p }
        };
        let q = crate::pass::further(w);
        lemma_saw_stays(x, told, p, q);
        lemma_probed_stays(x, told, p, q, cfg.units.len() as int);
        assert forall|j: int| 0 <= j < q.pos implies found_down(x, told, #[trigger] q.list[j])
            || q.picked.contains(q.list[j]) by {
            lemma_push_contains(p.picked, i, q.list[j]);
            if j < p.pos {
                assert(found_down(x, t, p.list[j]) || p.picked.contains(p.list[j]));
            }
        }
        if q.pos >= q.list.len() {
            if q.picked.len() == 0 {
                assert(cleared(x, told, q));
                lemma_ensuring_history(x, told, q, s);
            } else {
                lemma_saw_stays(x, told, p, r.0);
                lemma_probed_stays(x, told, p, r.0, cfg.units.len() as int);
                assert(evicted_all(x, told, r.0.list, 1));
                assert forall|j: int| 0 <= j < r.0.preempted.len() implies found_down(
                    x,
                    told,
                    #[trigger] r.0.preempted[j],
                ) || r.0.list.contains(r.0.preempted[j]) by {
                    assert(q.list[j] == r.0.preempted[j]);
                }
            }
        }
}

proof fn lemma_step_preempting(x: Setting, told: Seq<Told>)
    requires
        x.cfg.units.len() <= usize::MAX,
        told.len() > 0,
        history(x, told.drop_last()),
        pass_awaits(run(x, told.drop_last()).0.phase, told.last().ev),
        run(x, told.drop_last()).0.phase == PassPhase::Preempting,
        told.last().ev is Evicted,
    ensures
        history(x, told),
{
    let t = told.drop_last();
    let cfg = x.cfg;
    let (p, s) = (run(x, t).0, run(x, t).1);
    let (ev, now) = (told.last().ev, told.last().now);
    let r = run(x, told);
    pass_stays_wf(p, s, cfg, ev, now);
    lemma_lift(x, told);
    lemma_asked_now(x, told);
    let res = ev->Evicted_0;
    let tm = ev->Evicted_1;
        let c = crate::pass::counted_in(
            s,
            crate::pass::name_at(cfg, p.list[p.pos as int]),
            res,
            tm,
        );
        let q = crate::pass::further(p);
        lemma_saw_stays(x, told, p, q);
        lemma_probed_stays(x, told, p, q, cfg.units.len() as int);
        assert(evicted_all(x, told, q.list, q.pos as int));
        assert forall|j: int| 0 <= j < q.preempted.len() implies found_down(
            x,
            told,
            #[trigger] q.preempted[j],
        ) || q.list.contains(q.preempted[j]) by {
            assert(found_down(x, t, p.preempted[j]) || p.list.contains(p.preempted[j]));
        }
        if q.pos < q.list.len() {
            assert(evicted_all(x, told, q.list, q.pos + 1));
        } else {
            assert forall|j: int| 0 <= j < q.preempted.len() implies found_down(
                x,
                told,
                #[trigger] q.preempted[j],
            ) || asked(x, told, PassAction::EvictUnit(q.preempted[j])) by {
                if q.list.contains(q.preempted[j]) {
                    let k = choose|k: int|
                        0 <= k < q.list.len() && q.list[k] == q.preempted[j];
                    assert(asked(x, told, PassAction::EvictUnit(q.list[k])));
                }
            }
            lemma_ensuring_history(x, told, q, c);
        }
}

proof fn lemma_step_resuming(x: Setting, told: Seq<Told>)
    requires
        x.cfg.units.len() <= usize::MAX,
        told.len() > 0,
        history(x, told.drop_last()),
        pass_awaits(run(x, told.drop_last()).0.phase, told.last().ev),
        run(x, told.drop_last()).0.phase == PassPhase::Resuming,
    ensures
        history(x, told),
{
    let t = told.drop_last();
    let cfg = x.cfg;
    let (p, s) = (run(x, t).0, run(x, t).1);
    let (ev, now) = (told.last().ev, told.last().now);
    let r = run(x, told);
    pass_stays_wf(p, s, cfg, ev, now);
    lemma_lift(x, told);
    lemma_asked_now(x, told);
        lemma_saw_stays(x, told, p, r.0);
        lemma_probed_stays(x, told, p, r.0, cfg.units.len() as int);
        lemma_cleared_stays(x, told, p, r.0);
        lemma_asked_now(x, t);
        lemma_handled_stays(x, told, p.list, p.pos as int, p.picked, r.0.picked);
}

proof fn lemma_step_checking_target(x: Setting, told: Seq<Told>)
    requires
        x.cfg.units.len() <= usize::MAX,
        told.len() > 0,
        history(x, told.drop_last()),
        pass_awaits(run(x, told.drop_last()).0.phase, told.last().ev),
        run(x, told.drop_last()).0.phase == PassPhase::CheckingTarget,
        told.last().ev is Running,
    ensures
        history(x, told),
{
    let t = told.drop_last();
    let cfg = x.cfg;
    let (p, s) = (run(x, t).0, run(x, t).1);
    let (ev, now) = (told.last().ev, told.last().now);
    let r = run(x, told);
    pass_stays_wf(p, s, cfg, ev, now);
    lemma_lift(x, told);
    lemma_asked_now(x, told);
    let run_state = ev->Running_0;
        let i = p.list[p.pos as int];
        let w = if run_state == Some(true) {
            p
        } else {
            PassView { picked: p.picked.push(i), ..p }
        };
        let q = crate::pass::further(w);
        lemma_saw_stays(x, told, p, r.0);
        lemma_probed_stays(x, told, p, r.0, cfg.units.len() as int);
        lemma_cleared_stays(x, told, p, r.0);
        assert forall|j: usize| p.picked.contains(j) implies q.picked.contains(j) by {
            lemma_push_contains(p.picked, i, j);
        }
        lemma_push_contains(p.picked, i, i);
        lemma_handled_stays(x, told, p.list, p.pos as int, p.picked, q.picked);
        assert(handled(x, told, i, q.picked));
        assert(all_handled(x, told, q.list, q.pos as int, q.picked));
        if q.pos >= q.list.len() && q.picked.len() == 0 {
            assert(gamed(x, told, r.0));
            assert forall|j: int| 0 <= j < targets(x, r.0, s).len() implies {
                let u = #[trigger] targets(x, r.0, s)[j];
                asked(x, told, PassAction::Resume(u)) && (found_up(x, told, u) || asked(
                    x,
                    told,
                    PassAction::StartUnit(u),
                ) || late_claim(x, told))
            } by {
                assert(handled(x, told, q.list[j], q.picked));
            }
        }
}

proof fn lemma_step_reobserving(x: Setting, told: Seq<Told>)
    requires
        x.cfg.units.len() <= usize::MAX,
        told.len() > 0,
        history(x, told.drop_last()),
        pass_awaits(run(x, told.drop_last()).0.phase, told.last().ev),
        run(x, told.drop_last()).0.phase == PassPhase::Reobserving,
        told.last().ev is Observed,
    ensures
        history(x, told),
{
    let t = told.drop_last();
    let cfg = x.cfg;
    let (p, s) = (run(x, t).0, run(x, t).1);
    let (ev, now) = (told.last().ev, told.last().now);
    let r = run(x, told);
    pass_stays_wf(p, s, cfg, ev, now);
    lemma_lift(x, told);
    lemma_asked_now(x, told);
    let o = ev->Observed_0;
        lemma_saw_stays(x, told, p, r.0);
        lemma_probed_stays(x, told, p, r.0, cfg.units.len() as int);
        lemma_cleared_stays(x, told, p, r.0);
        lemma_handled_stays(x, told, p.list, p.list.len() as int, p.picked, p.picked);
        if claims_of(o, cfg).len() > 0 {
            assert(gamed(x, told, r.0));
            assert forall|j: int| 0 <= j < targets(x, r.0, s).len() implies {
                let u = #[trigger] targets(x, r.0, s)[j];
                asked(x, told, PassAction::Resume(u)) && (found_up(x, told, u) || asked(
                    x,
                    told,
                    PassAction::StartUnit(u),
                ) || late_claim(x, told))
            } by {
                assert(handled(x, told, p.list[j], p.picked));
            }
        }
}

proof fn lemma_step_starting(x: Setting, told: Seq<Told>)
    requires
        x.cfg.units.len() <= usize::MAX,
        told.len() > 0,
        history(x, told.drop_last()),
        pass_awaits(run(x, told.drop_last()).0.phase, told.last().ev),
        run(x, told.drop_last()).0.phase == PassPhase::Starting,
        told.last().ev is Started,
    ensures
        history(x, told),
{
    let t = told.drop_last();
    let cfg = x.cfg;
    let (p, s) = (run(x, t).0, run(x, t).1);
    let (ev, now) = (told.last().ev, told.last().now);
    let r = run(x, told);
    pass_stays_wf(p, s, cfg, ev, now);
    lemma_lift(x, told);
    lemma_asked_now(x, told);
    let ok = ev->Started_0;
        lemma_saw_stays(x, told, p, r.0);
        lemma_probed_stays(x, told, p, r.0, cfg.units.len() as int);
        lemma_cleared_stays(x, told, p, r.0);
        let ts = targets(x, p, s);
        lemma_handled_stays(x, told, ts, ts.len() as int, p.list, p.list);
        let q = crate::pass::further(p);
        if q.pos >= q.list.len() {
            assert(gamed(x, told, r.0));
            assert forall|j: int| 0 <= j < targets(x, r.0, r.1).len() implies {
                let u = #[trigger] targets(x, r.0, r.1)[j];
                asked(x, told, PassAction::Resume(u)) && (found_up(x, told, u) || asked(
                    x,
                    told,
                    PassAction::StartUnit(u),
                ) || late_claim(x, told))
            } by {
                assert(handled(x, told, ts[j], p.list));
                if p.list.contains(ts[j]) {
                    let k = choose|k: int| 0 <= k < p.list.len() && p.list[k] == ts[j];
                    assert(asked(x, t, PassAction::StartUnit(p.list[k])));
                }
            }
        }
}

proof fn lemma_step_refreshing(x: Setting, told: Seq<Told>)
    requires
        x.cfg.units.len() <= usize::MAX,
        told.len() > 0,
        history(x, told.drop_last()),
        pass_awaits(run(x, told.drop_last()).0.phase, told.last().ev),
        run(x, told.drop_last()).0.phase == PassPhase::Refreshing,
    ensures
        history(x, told),
{
    let t = told.drop_last();
    let cfg = x.cfg;
    let (p, s) = (run(x, t).0, run(x, t).1);
    let (ev, now) = (told.last().ev, told.last().now);
    let r = run(x, told);
    pass_stays_wf(p, s, cfg, ev, now);
    lemma_lift(x, told);
    lemma_asked_now(x, told);
        lemma_saw_stays(x, told, p, r.0);
        lemma_probed_stays(x, told, p, r.0, cfg.units.len() as int);
        lemma_cleared_stays(x, told, p, r.0);
        assert(gamed(x, told, r.0));
        assert forall|j: int| 0 <= j < targets(x, r.0, r.1).len() implies {
            let u = #[trigger] targets(x, r.0, r.1)[j];
            p.desired == State::Available ==> asked(x, told, PassAction::Resume(u)) && (found_up(
                x,
                told,
                u,
            ) || asked(x, told, PassAction::StartUnit(u)) || late_claim(x, told))
        } by {
            let u = targets(x, p, s)[j];
        }
}

proof fn lemma_step_other(x: Setting, told: Seq<Told>)
    requires
        x.cfg.units.len() <= usize::MAX,
        told.len() > 0,
        history(x, told.drop_last()),
        pass_awaits(run(x, told.drop_last()).0.phase, told.last().ev),
        !(run(x, told.drop_last()).0.phase == PassPhase::Observing && told.last().ev is Observed),
        match run(x, told.drop_last()).0.phase {
            PassPhase::ManualStart | PassPhase::ManualStop | PassPhase::Replied
            | PassPhase::Observing => true,
            PassPhase::Reobserving => !(told.last().ev is Observed),
            _ => false,
        },
    ensures
        history(x, told),
{
    let t = told.drop_last();
    let cfg = x.cfg;
    let (p, s) = (run(x, t).0, run(x, t).1);
    let (ev, now) = (told.last().ev, told.last().now);
    let r = run(x, told);
    pass_stays_wf(p, s, cfg, ev, now);
    lemma_lift(x, told);
    lemma_asked_now(x, told);
    if p.phase != PassPhase::Reobserving {
        assert forall|j: usize| !#[trigger] busy(x, told, j) by {
            assert(!busy(x, t, j));
        }
    }
}

proof fn lemma_step_history(x: Setting, told: Seq<Told>)
    requires
        x.cfg.units.len() <= usize::MAX,
        told.len() > 0,
        history(x, told.drop_last()),
        pass_awaits(run(x, told.drop_last()).0.phase, told.last().ev),
    ensures
        history(x, told),
{
    match (run(x, told.drop_last()).0.phase, told.last().ev) {
        (PassPhase::Observing, PassEventView::Observed(_)) => lemma_step_observing(x, told),
        (PassPhase::Probing, PassEventView::Busy(_)) => lemma_step_probing(x, told),
        (PassPhase::EvictingForGame, PassEventView::Evicted(_, _)) => lemma_step_evicting_for_game(x, told),
        (PassPhase::CheckingPreempted, PassEventView::Running(_)) => lemma_step_checking_preempted(x, told),
        (PassPhase::Preempting, PassEventView::Evicted(_, _)) => lemma_step_preempting(x, told),
        (PassPhase::Resuming, _) => lemma_step_resuming(x, told),
        (PassPhase::CheckingTarget, PassEventView::Running(_)) => lemma_step_checking_target(x, told),
        (PassPhase::Reobserving, PassEventView::Observed(_)) => lemma_step_reobserving(x, told),
        (PassPhase::Starting, PassEventView::Started(_)) => lemma_step_starting(x, told),
        (PassPhase::Refreshing, _) => lemma_step_refreshing(x, told),
        _ => lemma_step_other(x, told),
    }
}

proof fn lemma_probed_stays(x: Setting, told: Seq<Told>, p: PassView, q: PassView, n: int)
    requires
        told.len() > 0,
        probed(x, told.drop_last(), p, n),
        !(run(x, told.drop_last()).2 is ProbeBusy),
        q.busy == p.busy,
    ensures
        probed(x, told, q, n),
{
    lemma_lift(x, told);
    assert forall|j: usize| q.busy.contains(j) <==> #[trigger] busy(x, told, j) by {
        assert(p.busy.contains(j) <==> busy(x, told.drop_last(), j));
    }
}

proof fn lemma_cleared_stays(x: Setting, told: Seq<Told>, p: PassView, q: PassView)
    requires
        told.len() > 0,
        cleared(x, told.drop_last(), p),
        q.preempted == p.preempted,
        q.desired == p.desired,
    ensures
        cleared(x, told, q),
{
    lemma_lift(x, told);
}

proof fn lemma_handled_stays(
    x: Setting,
    told: Seq<Told>,
    list: Seq<usize>,
    n: int,
    a: Seq<usize>,
    b: Seq<usize>,
)
    requires
        told.len() > 0,
        all_handled(x, told.drop_last(), list, n, a),
        forall|j: usize| a.contains(j) ==> b.contains(j),
    ensures
        all_handled(x, told, list, n, b),
{
    lemma_lift(x, told);
    assert forall|j: int| 0 <= j < n implies handled(x, told, #[trigger] list[j], b) by {
        assert(handled(x, told.drop_last(), list[j], a));
    }
}

proof fn lemma_push_contains(v: Seq<usize>, a: usize, j: usize)
    ensures
        v.push(a).contains(j) <==> v.contains(j) || j == a,
{
    if v.push(a).contains(j) {
        let k = choose|k: int| 0 <= k < v.push(a).len() && v.push(a)[k] == j;
        if k < v.len() {
            assert(v[k] == j);
        }
    }
    if v.contains(j) {
        let k = choose|k: int| 0 <= k < v.len() && v[k] == j;
        assert(v.push(a)[k] == j);
    }
    assert(v.push(a)[v.len() as int] == a);
}

proof fn lemma_saw_stays(x: Setting, told: Seq<Told>, p: PassView, q: PassView)
    requires
        told.len() > 0,
        saw(x, told.drop_last(), p),
        q.claims == p.claims,
    ensures
        saw(x, told, q),
{
    lemma_lift(x, told);
    let o = choose|o: ObservationView| #[trigger]
        answered(x, told.drop_last(), PassAction::Observe, PassEventView::Observed(o)) && p.claims
            == claims_of(o, x.cfg);
    assert(answered(x, told, PassAction::Observe, PassEventView::Observed(o)));
}

// ── laws ───────────────────────────────────────────────────────────────────

/// When a game comes to a free GPU, it is handed the GPU only once every unit of a
/// lower tier was told to let go: every unit below the priority of a game, and every
/// unit below one that said it has work. How the evictions ended makes no
/// difference.
pub proof fn game_gets_the_gpu_from_every_lower_unit(x: Setting, told: Seq<Told>, i: int)
    requires
        x.cfg.units.len() <= usize::MAX,
        in_turn(x, told),
        x.state.state == State::Available,
        run(x, told).1.state == State::Gaming,
        0 <= i < x.cfg.units.len(),
        x.cfg.units[i].priority < x.cfg.game_priority || exists|j: usize|
            j < x.cfg.units.len() && #[trigger] busy(x, told, j) && x.cfg.units[i].priority
                < x.cfg.units[j as int].priority,
    ensures
        asked(x, told, PassAction::EvictUnit(i as usize)),
{
    lemma_history(x, told);
    let p = run(x, told).0;
    let ps = priorities_at(x.cfg, p.busy);
    let demand = demand_of(p.claims, x.cfg, ps);
    crate::ladder::demand_is_the_highest(p.claims, x.cfg, ps);
    lemma_below(x.cfg.units, demand);
    if x.cfg.units[i].priority >= x.cfg.game_priority {
        let j = choose|j: usize|
            j < x.cfg.units.len() && #[trigger] busy(x, told, j) && x.cfg.units[i].priority
                < x.cfg.units[j as int].priority;
        assert(p.busy.contains(j));
        let k = choose|k: int| 0 <= k < p.busy.len() && p.busy[k] == j;
        assert(ps[k] == x.cfg.units[j as int].priority);
    }
    assert(p.preempted.contains(i as usize));
    let k = choose|k: int| 0 <= k < p.preempted.len() && p.preempted[k] == i as usize;
    assert(asked(x, told, PassAction::EvictUnit(p.preempted[k])));
}

/// A pass that ends while no game runs has put every unit below one with work out of
/// the way: the unit was found down or was told to let go.
pub proof fn busy_unit_gets_the_gpu_from_every_lower_unit(
    x: Setting,
    told: Seq<Told>,
    i: int,
    j: usize,
)
    requires
        x.cfg.units.len() <= usize::MAX,
        in_turn(x, told),
        run(x, told).2 == PassAction::Finish,
        run(x, told).1.state == State::Available,
        0 <= i < x.cfg.units.len(),
        j < x.cfg.units.len(),
        busy(x, told, j),
        x.cfg.units[i].priority < x.cfg.units[j as int].priority,
    ensures
        found_down(x, told, i as usize) || asked(x, told, PassAction::EvictUnit(i as usize)),
{
    lemma_history(x, told);
    let p = run(x, told).0;
    let ps = priorities_at(x.cfg, p.busy);
    crate::ladder::demand_is_the_highest(p.claims, x.cfg, ps);
    lemma_below(x.cfg.units, demand_of(p.claims, x.cfg, ps));
    assert(p.busy.contains(j));
    let k = choose|k: int| 0 <= k < p.busy.len() && p.busy[k] == j;
    assert(ps[k] == x.cfg.units[j as int].priority);
    assert(p.preempted.contains(i as usize));
    let m = choose|m: int| 0 <= m < p.preempted.len() && p.preempted[m] == i as usize;
    assert(p.preempted[m] == i as usize);
}

/// A pass that ends while no game runs has brought back every unit that is to be up:
/// one that is eager, that no operator holds, and of whose name no unit stands below
/// one with work. Each was told to resume, and was then found up or was started, one
/// as well as the other, whatever came of the starts before it; only a claim that a
/// second look shows keeps units down.
pub proof fn every_wanted_unit_is_brought_back(x: Setting, told: Seq<Told>, i: int)
    requires
        x.cfg.units.len() <= usize::MAX,
        in_turn(x, told),
        run(x, told).2 == PassAction::Finish,
        run(x, told).1.state == State::Available,
        0 <= i < x.cfg.units.len(),
        x.cfg.units[i].eager_restart,
        !run(x, told).1.held.contains(x.cfg.units[i].unit),
        forall|k: int, j: usize|
            0 <= k < x.cfg.units.len() && x.cfg.units[k].unit == x.cfg.units[i].unit && j
                < x.cfg.units.len() && #[trigger] busy(x, told, j) ==> (
            #[trigger] x.cfg.units[k]).priority >= x.cfg.units[j as int].priority,
    ensures
        asked(x, told, PassAction::Resume(i as usize)),
        found_up(x, told, i as usize) || asked(x, told, PassAction::StartUnit(i as usize))
            || late_claim(x, told),
{
    lemma_history(x, told);
    let r = run(x, told);
    let p = r.0;
    let ps = priorities_at(x.cfg, p.busy);
    let demand = demand_of(p.claims, x.cfg, ps);
    crate::ladder::demand_is_the_highest(p.claims, x.cfg, ps);
    lemma_below(x.cfg.units, demand);
    lemma_wanted(x.cfg.units, r.1.held, p.preempted, x.cfg.units.len() as int);
    assert forall|k: int| 0 <= k < p.preempted.len() implies x.cfg.units[(
    #[trigger] p.preempted[k]) as int].unit != x.cfg.units[i].unit by {
        let u = p.preempted[k] as int;
        assert(below(x.cfg.units, demand)[k] == p.preempted[k]);
        assert(p.claims.len() == 0);
        let m = choose|m: int| 0 <= m < ps.len() && ps[m] == demand->0;
        assert(p.busy.contains(p.busy[m]));
        assert(busy(x, told, p.busy[m]));
        assert(p.busy[m] < x.cfg.units.len());
        if x.cfg.units[u].unit == x.cfg.units[i].unit {
            assert(x.cfg.units[u].priority >= x.cfg.units[p.busy[m] as int].priority);
        }
    }
    assert(wanted_up(x.cfg.units, r.1.held, p.preempted, i));
    let t = targets(x, p, r.1);
    assert(t.contains(i as usize));
    let k = choose|k: int| 0 <= k < t.len() && t[k] == i as usize;
    assert(t[k] == i as usize);
}

/// What a pass that ends well shows is what it saw: its claims are those of an
/// observation that it was told, and the state is gaming just where there are any.
/// Every unit was asked whether it has work.
pub proof fn pass_shows_what_it_saw(x: Setting, told: Seq<Told>)
    requires
        x.cfg.units.len() <= usize::MAX,
        in_turn(x, told),
        run(x, told).2 == PassAction::Finish,
    ensures
        exists|o: ObservationView| #[trigger]
            answered(x, told, PassAction::Observe, PassEventView::Observed(o)) && run(
                x,
                told,
            ).1.claims == claims_of(o, x.cfg),
        run(x, told).1.state == (if run(x, told).1.claims.len() > 0 {
            State::Gaming
        } else {
            State::Available
        }),
        forall|j: usize|
            j < x.cfg.units.len() ==> #[trigger] asked(x, told, PassAction::ProbeBusy(j)),
{
    lemma_history(x, told);
    assert(saw(x, told, run(x, told).0));
}

/// How far a pass is from its end.
spec fn rank(p: PassView, n: nat) -> nat {
    let w = 2 * n + 2;
    let left = if p.list.len() > p.pos {
        (p.list.len() - p.pos) as nat
    } else {
        0
    };
    match p.phase {
        PassPhase::ManualStart => 12 * w,
        PassPhase::ManualStop => 12 * w,
        PassPhase::Replied => 11 * w,
        PassPhase::Observing => 10 * w,
        PassPhase::Probing => 9 * w + if n > p.pos {
            (n - p.pos) as nat
        } else {
            0
        },
        PassPhase::EvictingForGame => 8 * w + left,
        PassPhase::CheckingPreempted => 7 * w + left,
        PassPhase::Preempting => 6 * w + left,
        PassPhase::Resuming => 5 * w + 2 * left + 1,
        PassPhase::CheckingTarget => 5 * w + 2 * left,
        PassPhase::Reobserving => 4 * w,
        PassPhase::Starting => 3 * w + left,
        PassPhase::Refreshing => 2 * w,
        PassPhase::Done => 0,
    }
}

proof fn lemma_rank(
    p: PassView,
    s: StateView,
    cfg: ConfigView,
    ev: PassEventView,
    now: UnixTime,
)
    requires
        cfg.units.len() <= usize::MAX,
        pass_wf(p, s, cfg),
        pass_awaits(p.phase, ev),
        p.list.len() <= cfg.units.len(),
        pass_next(p, s, cfg, ev, now).0.list.len() <= cfg.units.len(),
    ensures
        rank(pass_next(p, s, cfg, ev, now).0, cfg.units.len()) < rank(p, cfg.units.len()),
{
    let n = cfg.units.len();
    let q = pass_next(p, s, cfg, ev, now).0;
    assert(7 * (2 * n + 2) + 2 * n + 2 == 8 * (2 * n + 2));
    match p.phase {
        PassPhase::Observing => {},
        PassPhase::Probing => {},
        PassPhase::EvictingForGame => {},
        PassPhase::CheckingPreempted => {},
        PassPhase::Preempting => {},
        PassPhase::Resuming => {},
        PassPhase::CheckingTarget => {},
        PassPhase::Reobserving => {},
        PassPhase::Starting => {},
        _ => {},
    }
}

/// A pass comes to its end: it waits for a bounded number of things, whatever it is
/// told.
pub proof fn pass_comes_to_an_end(x: Setting, told: Seq<Told>)
    requires
        x.cfg.units.len() <= usize::MAX,
        in_turn(x, told),
    ensures
        told.len() <= 24 * (x.cfg.units.len() + 1),
{
    lemma_run_length(x, told);
}

proof fn lemma_run_length(x: Setting, told: Seq<Told>)
    requires
        x.cfg.units.len() <= usize::MAX,
        in_turn(x, told),
    ensures
        rank(run(x, told).0, x.cfg.units.len()) + told.len() <= 24 * (x.cfg.units.len() + 1),
    decreases told.len(),
{
    lemma_history(x, told);
    if told.len() > 0 {
        lemma_run_length(x, told.drop_last());
        lemma_history(x, told.drop_last());
        let r = run(x, told.drop_last());
        lemma_rank(r.0, r.1, x.cfg, told.last().ev, told.last().now);
    }
}

} // verus!
