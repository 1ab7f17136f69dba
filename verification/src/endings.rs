//! Whole evictions: what a unit went through before it was said to have let go.

use vstd::prelude::*;

use crate::config::{ConfigView, UnitView};
use crate::eviction::{
    awaits, evict_next, fresh_eviction, Eviction, EvictionActionView, EvictionEventView,
    EvictionPhase, EvictionSight,
};
use crate::units::{EvictionOutcome, HookRun, UnitErrorView};

verus! {

/// What an eviction is told, and when.
pub struct Told {
    pub ev: EvictionEventView,
    pub now: u64,
}

/// Of what unit, and where.
pub struct Setting {
    pub unit: UnitView,
    pub cfg: ConfigView,
    pub sight: EvictionSight,
}

/// Where an eviction stands once it was told all this.
pub open spec fn run(x: Setting, told: Seq<Told>) -> (Eviction, EvictionActionView)
    decreases told.len(),
{
    if told.len() == 0 {
        (fresh_eviction(), EvictionActionView::QueryRunning)
    } else {
        evict_next(
            run(x, told.drop_last()).0,
            x.unit,
            x.cfg,
            x.sight,
            told.last().ev,
            told.last().now,
        )
    }
}

/// The eviction was always told what it waited for.
pub open spec fn in_turn(x: Setting, told: Seq<Told>) -> bool
    decreases told.len(),
{
    told.len() == 0 || (in_turn(x, told.drop_last()) && awaits(
        run(x, told.drop_last()).0.phase,
        x.unit,
        told.last().ev,
    ))
}

/// The eviction has asked for this.
#[verifier::opaque]
pub open spec fn asked(x: Setting, told: Seq<Told>, a: EvictionActionView) -> bool {
    exists|k: int| 0 <= k <= told.len() && (#[trigger] run(x, told.take(k))).1 == a
}

/// The eviction has asked for this and was told that.
#[verifier::opaque]
pub open spec fn answered(
    x: Setting,
    told: Seq<Told>,
    a: EvictionActionView,
    ev: EvictionEventView,
) -> bool {
    exists|k: int|
        0 <= k < told.len() && (#[trigger] run(x, told.take(k))).1 == a && told[k].ev == ev
}

proof fn lemma_lift(x: Setting, told: Seq<Told>)
    requires
        told.len() > 0,
    ensures
        forall|a: EvictionActionView| #[trigger]
            asked(x, told, a) == (asked(x, told.drop_last(), a) || run(x, told).1 == a),
        forall|a: EvictionActionView, ev: EvictionEventView| #[trigger]
            answered(x, told, a, ev) == (answered(x, told.drop_last(), a, ev) || (run(
                x,
                told.drop_last(),
            ).1 == a && told.last().ev == ev)),
{
    reveal(asked);
    reveal(answered);
    let t = told.drop_last();
    let n = t.len() as int;
    assert(told.take(n) =~= t);
    assert(told.take(n + 1) =~= told);
    assert forall|a: EvictionActionView| #[trigger]
        asked(x, told, a) == (asked(x, told.drop_last(), a) || run(x, told).1 == a) by {
        if asked(x, t, a) {
            let k = choose|k: int| 0 <= k <= t.len() && (#[trigger] run(x, t.take(k))).1 == a;
            assert(told.take(k) =~= t.take(k));
            assert(run(x, told.take(k)).1 == a);
        }
        if run(x, told).1 == a {
            assert(run(x, told.take(n + 1)).1 == a);
        }
        if asked(x, told, a) {
            let k = choose|k: int| 0 <= k <= told.len() && (#[trigger] run(x, told.take(k))).1 == a;
            if k <= n {
                assert(told.take(k) =~= t.take(k));
                assert(run(x, t.take(k)).1 == a);
            }
        }
    }
    assert forall|a: EvictionActionView, ev: EvictionEventView| #[trigger]
        answered(x, told, a, ev) == (answered(x, told.drop_last(), a, ev) || (run(
            x,
            told.drop_last(),
        ).1 == a && told.last().ev == ev)) by {
        if answered(x, t, a, ev) {
            let k = choose|k: int|
                0 <= k < t.len() && (#[trigger] run(x, t.take(k))).1 == a && t[k].ev == ev;
            assert(told.take(k) =~= t.take(k));
            assert(run(x, told.take(k)).1 == a && told[k].ev == ev);
        }
        if run(x, t).1 == a && told.last().ev == ev {
            assert(run(x, told.take(n)).1 == a && told[n].ev == ev);
        }
        if answered(x, told, a, ev) {
            let k = choose|k: int|
                0 <= k < told.len() && (#[trigger] run(x, told.take(k))).1 == a && told[k].ev == ev;
            if k < n {
                assert(told.take(k) =~= t.take(k));
                assert(run(x, t.take(k)).1 == a && t[k].ev == ev);
            }
        }
    }
}

proof fn lemma_start(x: Setting)
    ensures
        forall|a: EvictionActionView| #[trigger]
            asked(x, Seq::empty(), a) == (a == EvictionActionView::QueryRunning),
{
    reveal(asked);
    let e = Seq::<Told>::empty();
    assert(e.take(0) =~= e);
    assert forall|a: EvictionActionView| #[trigger] asked(x, e, a) == (a
        == EvictionActionView::QueryRunning) by {
        if a == EvictionActionView::QueryRunning {
            assert(run(x, e.take(0)).1 == a);
        }
    }
}

/// The unit was stopped, and the stop command had succeeded.
spec fn stopped(x: Setting, told: Seq<Told>) -> bool {
    answered(x, told, EvictionActionView::Stop, EvictionEventView::Stopped(None))
}

/// A unit that can be asked to yield was asked.
spec fn was_asked(x: Setting, told: Seq<Told>) -> bool {
    x.unit.yield_cmd is Some && x.unit.busy_cmd is Some ==> asked(
        x,
        told,
        EvictionActionView::RunYield,
    )
}

spec fn history(x: Setting, told: Seq<Told>) -> bool {
    let (e, a) = run(x, told);
    let unstopped = !asked(x, told, EvictionActionView::Stop) && !asked(
        x,
        told,
        EvictionActionView::Kill,
    );
    let polling = stopped(x, told) && was_asked(x, told) && !asked(
        x,
        told,
        EvictionActionView::Kill,
    );
    match e.phase {
        EvictionPhase::Checking => told.len() == 0 && unstopped,
        EvictionPhase::Yielding => a == EvictionActionView::RunYield && unstopped && asked(
            x,
            told,
            EvictionActionView::RunYield,
        ),
        EvictionPhase::Releasing => a == EvictionActionView::ProbeBusy && unstopped && answered(
            x,
            told,
            EvictionActionView::RunYield,
            EvictionEventView::YieldRan(HookRun::Success),
        ) && asked(x, told, EvictionActionView::RunYield),
        EvictionPhase::ReleaseWait => unstopped && answered(
            x,
            told,
            EvictionActionView::RunYield,
            EvictionEventView::YieldRan(HookRun::Success),
        ) && asked(x, told, EvictionActionView::RunYield),
        EvictionPhase::Stopping => a == EvictionActionView::Stop && was_asked(x, told) && !asked(
            x,
            told,
            EvictionActionView::Kill,
        ),
        EvictionPhase::PollRunning => polling && a == EvictionActionView::QueryRunning,
        EvictionPhase::PollCompute => polling,
        EvictionPhase::PollMemory => polling,
        EvictionPhase::PollWait => polling,
        EvictionPhase::Rechecking => polling && a == EvictionActionView::QueryRunning,
        EvictionPhase::Killing => stopped(x, told) && was_asked(x, told) && a
            == EvictionActionView::Kill,
        EvictionPhase::Done => match a {
            EvictionActionView::Finish(Ok(EvictionOutcome::Freed)) => polling,
            EvictionActionView::Finish(Ok(EvictionOutcome::Escalated)) => stopped(x, told)
                && was_asked(x, told) && answered(
                x,
                told,
                EvictionActionView::Kill,
                EvictionEventView::Killed,
            ),
            EvictionActionView::Finish(Ok(EvictionOutcome::Yielded)) => unstopped && answered(
                x,
                told,
                EvictionActionView::RunYield,
                EvictionEventView::YieldRan(HookRun::Success),
            ) && answered(
                x,
                told,
                EvictionActionView::ProbeBusy,
                EvictionEventView::Busy(false),
            ),
            EvictionActionView::Finish(Ok(EvictionOutcome::AlreadyClear)) => unstopped
                && told.len() == 1 && told[0].ev == EvictionEventView::Running(Ok(false)),
            EvictionActionView::Finish(Err(w)) => !asked(x, told, EvictionActionView::Kill) && ((
            unstopped && told.len() == 1 && told[0].ev == EvictionEventView::Running(Err(w)))
                || answered(
                x,
                told,
                EvictionActionView::Stop,
                EvictionEventView::Stopped(Some(w)),
            )),
            _ => false,
        },
    }
}

proof fn lemma_history(x: Setting, told: Seq<Told>)
    requires
        in_turn(x, told),
    ensures
        history(x, told),
    decreases told.len(),
{
    if told.len() == 0 {
        assert(told =~= Seq::empty());
        lemma_start(x);
    } else {
        lemma_history(x, told.drop_last());
        lemma_lift(x, told);
        let e = run(x, told.drop_last()).0;
        match e.phase {
            EvictionPhase::Checking => {
                assert(told.len() == 1);
                assert(told[0] == told.last());
            },
            _ => {},
        }
    }
}

// ── laws ───────────────────────────────────────────────────────────────────

/// A unit said to be freed was stopped, with success, and was not killed. Where it
/// could be asked to yield, it was asked before.
pub proof fn freed_unit_was_stopped(x: Setting, told: Seq<Told>)
    requires
        in_turn(x, told),
        run(x, told).1 == EvictionActionView::Finish(Ok(EvictionOutcome::Freed)),
    ensures
        answered(x, told, EvictionActionView::Stop, EvictionEventView::Stopped(None)),
        !asked(x, told, EvictionActionView::Kill),
        x.unit.yield_cmd is Some && x.unit.busy_cmd is Some ==> asked(
            x,
            told,
            EvictionActionView::RunYield,
        ),
{
    lemma_history(x, told);
    lemma_finished(x, told);
}

/// A unit said to be killed was stopped first and was then killed.
pub proof fn escalated_unit_was_killed(x: Setting, told: Seq<Told>)
    requires
        in_turn(x, told),
        run(x, told).1 == EvictionActionView::Finish(Ok(EvictionOutcome::Escalated)),
    ensures
        answered(x, told, EvictionActionView::Stop, EvictionEventView::Stopped(None)),
        answered(x, told, EvictionActionView::Kill, EvictionEventView::Killed),
        x.unit.yield_cmd is Some && x.unit.busy_cmd is Some ==> asked(
            x,
            told,
            EvictionActionView::RunYield,
        ),
{
    lemma_history(x, told);
    lemma_finished(x, told);
}

/// A unit said to have yielded was asked to, agreed, was then found without work, and
/// was neither stopped nor killed.
pub proof fn yielded_unit_stays_up(x: Setting, told: Seq<Told>)
    requires
        in_turn(x, told),
        run(x, told).1 == EvictionActionView::Finish(Ok(EvictionOutcome::Yielded)),
    ensures
        answered(
            x,
            told,
            EvictionActionView::RunYield,
            EvictionEventView::YieldRan(HookRun::Success),
        ),
        answered(x, told, EvictionActionView::ProbeBusy, EvictionEventView::Busy(false)),
        !asked(x, told, EvictionActionView::Stop),
        !asked(x, told, EvictionActionView::Kill),
{
    lemma_history(x, told);
    lemma_finished(x, told);
}

/// A unit said to be clear already was only asked whether it runs, and does not.
pub proof fn clear_unit_is_left_alone(x: Setting, told: Seq<Told>)
    requires
        in_turn(x, told),
        run(x, told).1 == EvictionActionView::Finish(Ok(EvictionOutcome::AlreadyClear)),
    ensures
        told.len() == 1,
        told[0].ev == EvictionEventView::Running(Ok(false)),
{
    lemma_history(x, told);
    lemma_finished(x, told);
}

/// An eviction that ends with an error was told that error: by the first question
/// whether the unit runs, or by its stop. Nothing was killed.
pub proof fn error_was_told(x: Setting, told: Seq<Told>, w: UnitErrorView)
    requires
        in_turn(x, told),
        run(x, told).1 == EvictionActionView::Finish(Err(w)),
    ensures
        (told.len() == 1 && told[0].ev == EvictionEventView::Running(Err(w))) || answered(
            x,
            told,
            EvictionActionView::Stop,
            EvictionEventView::Stopped(Some(w)),
        ),
        !asked(x, told, EvictionActionView::Kill),
{
    lemma_history(x, told);
    lemma_finished(x, told);
}

proof fn lemma_finished(x: Setting, told: Seq<Told>)
    requires
        in_turn(x, told),
        run(x, told).1 is Finish,
    ensures
        run(x, told).0.phase == EvictionPhase::Done,
{
    if told.len() > 0 {
        lemma_history(x, told.drop_last());
    }
}

} // verus!
