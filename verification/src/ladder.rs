//! Who may use the GPU: the tiers of games and units, and the units that are to
//! be up.

use vstd::prelude::*;

use crate::config::{Config, ConfigView, ManagedUnit, UnitView};
use crate::names::NameMap;
use crate::state::{claim_views, Claim, ClaimView, State};
use crate::text::same;

verus! {

// ── the ladder ─────────────────────────────────────────────────────────────

/// The highest priority among some units.
pub open spec fn top_priority(busy: Seq<u8>) -> Option<u8>
    decreases busy.len(),
{
    if busy.len() == 0 {
        None
    } else {
        match top_priority(busy.drop_last()) {
            Some(p) => Some(
                if p >= busy.last() {
                    p
                } else {
                    busy.last()
                },
            ),
            None => Some(busy.last()),
        }
    }
}

/// The priority at which the GPU is wanted: a game's, while there is a claim, or
/// that of the highest busy unit, whichever is more.
pub open spec fn demand_of(claims: Seq<ClaimView>, cfg: ConfigView, busy: Seq<u8>) -> Option<u8> {
    match (claims.len() > 0, top_priority(busy)) {
        (true, Some(t)) => Some(
            if cfg.game_priority >= t {
                cfg.game_priority
            } else {
                t
            },
        ),
        (true, None) => Some(cfg.game_priority),
        (false, t) => t,
    }
}

/// The priorities of some units.
pub open spec fn priorities(busy: Seq<&ManagedUnit>) -> Seq<u8> {
    Seq::new(busy.len(), |i: int| busy[i].priority)
}

/// The priority at which the GPU is wanted.
pub fn effective_demand(claims: &[Claim], cfg: &Config, busy: &[&ManagedUnit]) -> (r: Option<u8>)
    ensures
        r == demand_of(claim_views(claims@), cfg@, priorities(busy@)),
{
    let ghost ps = priorities(busy@);
    let mut top: Option<u8> = None;
    let mut i: usize = 0;
    proof {
        assert(ps.take(0) =~= Seq::empty());
    }
    while i < busy.len()
        invariant
            i <= busy.len(),
            ps == priorities(busy@),
            top == top_priority(ps.take(i as int)),
        decreases busy.len() - i,
    {
        let p: u8 = busy[i].priority;
        proof {
            assert(ps.take(i + 1).drop_last() =~= ps.take(i as int));
            assert(ps.take(i + 1).last() == p);
        }
        top = match top {
            Some(t) => Some(
                if t >= p {
                    t
                } else {
                    p
                },
            ),
            None => Some(p),
        };
        i = i + 1;
    }
    proof {
        assert(ps.take(busy.len() as int) =~= ps);
    }
    if claims.len() > 0 {
        match top {
            Some(t) => Some(
                if cfg.game_priority >= t {
                    cfg.game_priority
                } else {
                    t
                },
            ),
            None => Some(cfg.game_priority),
        }
    } else {
        top
    }
}

/// The positions of the units strictly below a demand, in order.
pub open spec fn below(units: Seq<UnitView>, demand: Option<u8>) -> Seq<usize>
    decreases units.len(),
{
    if units.len() == 0 {
        Seq::empty()
    } else {
        let p = below(units.drop_last(), demand);
        if demand is Some && units.last().priority < demand->0 {
            p.push((units.len() - 1) as usize)
        } else {
            p
        }
    }
}

/// The positions of the units that may not run under a demand.
pub fn preempted_positions(cfg: &Config, demand: Option<u8>) -> (r: Vec<usize>)
    ensures
        r@ == below(cfg@.units, demand),
{
    let ghost uv = cfg@.units;
    let mut out: Vec<usize> = Vec::new();
    let mut i: usize = 0;
    proof {
        assert(uv.take(0) =~= Seq::empty());
        assert(out@ =~= Seq::empty());
    }
    while i < cfg.units.len()
        invariant
            i <= cfg.units.len(),
            uv == cfg@.units,
            out@ == below(uv.take(i as int), demand),
        decreases cfg.units.len() - i,
    {
        proof {
            assert(uv.take(i + 1).drop_last() =~= uv.take(i as int));
            assert(uv.take(i + 1).last() == cfg.units@[i as int]@);
        }
        if let Some(d) = demand {
            if cfg.units[i].priority < d {
                out.push(i);
            }
        }
        i = i + 1;
    }
    proof {
        assert(uv.take(uv.len() as int) =~= uv);
    }
    out
}

/// Every position of `below` is one of a unit, and of one below the demand.
pub proof fn lemma_below(units: Seq<UnitView>, demand: Option<u8>)
    requires
        units.len() <= usize::MAX,
    ensures
        forall|k: int|
            0 <= k < below(units, demand).len() ==> {
                let i = (#[trigger] below(units, demand)[k]) as int;
                0 <= i < units.len() && demand is Some && units[i].priority < demand->0
            },
        forall|i: int|
            0 <= i < units.len() && demand is Some && (#[trigger] units[i]).priority < demand->0
                ==> below(units, demand).contains(i as usize),
        forall|a: int, b: int|
            0 <= a < b < below(units, demand).len() ==> (#[trigger] below(units, demand)[a])
                < (#[trigger] below(units, demand)[b]),
        below(units, demand).len() <= units.len(),
    decreases units.len(),
{
    if units.len() > 0 {
        let t = units.drop_last();
        lemma_below(t, demand);
        let p = below(t, demand);
        let b = below(units, demand);
        assert forall|k: int| 0 <= k < b.len() implies {
            let i = (#[trigger] b[k]) as int;
            0 <= i < units.len() && demand is Some && units[i].priority < demand->0
        } by {
            if k < p.len() {
                assert(b[k] == p[k]);
                assert(t[p[k] as int] == units[p[k] as int]);
            }
        }
        assert forall|i: int|
            0 <= i < units.len() && demand is Some && (#[trigger] units[i]).priority
                < demand->0 implies b.contains(i as usize) by {
            if i < t.len() {
                assert(t[i] == units[i]);
                assert(p.contains(i as usize));
                let k = choose|k: int| 0 <= k < p.len() && p[k] == i as usize;
                assert(b[k] == i as usize);
            } else {
                assert(b[b.len() - 1] == i as usize);
            }
        }
    }
}

/// The units that may not run under a demand: those of a strictly lower tier.
pub fn preempted_units(cfg: &Config, demand: Option<u8>) -> (r: Vec<&ManagedUnit>)
    ensures
        r@.len() == below(cfg@.units, demand).len(),
        forall|k: int|
            0 <= k < r@.len() ==> *(#[trigger] r@[k]) == cfg.units@[below(
                cfg@.units,
                demand,
            )[k] as int],
{
    let at = preempted_positions(cfg, demand);
    let mut out: Vec<&ManagedUnit> = Vec::new();
    let n: usize = cfg.units.len();
    proof {
        assert(cfg@.units.len() == n);
        lemma_below(cfg@.units, demand);
    }
    let mut k: usize = 0;
    while k < at.len()
        invariant
            k <= at.len(),
            at@ == below(cfg@.units, demand),
            forall|j: int| 0 <= j < at@.len() ==> (#[trigger] at@[j]) < cfg.units@.len(),
            out@.len() == k,
            forall|j: int| 0 <= j < k ==> *(#[trigger] out@[j]) == cfg.units@[at@[j] as int],
        decreases at.len() - k,
    {
        out.push(&cfg.units[at[k]]);
        k = k + 1;
    }
    out
}

/// What a pass does to the units.
#[derive(Debug, Clone, Copy, PartialEq, Eq, Structural)]
pub enum UnitAction {
    /// A game has started: evict.
    Evict,
    /// The last game has ended: bring the units back.
    Restart,
    /// Neither: settle on the state.
    Settle,
}

/// What follows from the state before and the state wanted.
pub open spec fn action_of(current: State, desired: State) -> UnitAction {
    match (current, desired) {
        (State::Available, State::Gaming) => UnitAction::Evict,
        (State::Gaming, State::Available) => UnitAction::Restart,
        _ => UnitAction::Settle,
    }
}

/// What follows from the state before and the state wanted.
pub fn unit_action(current: State, desired: State) -> (r: UnitAction)
    ensures
        r == action_of(current, desired),
{
    match (current, desired) {
        (State::Available, State::Gaming) => UnitAction::Evict,
        (State::Gaming, State::Available) => UnitAction::Restart,
        _ => UnitAction::Settle,
    }
}

/// Some unit at one of the positions has this name.
pub open spec fn named_at(units: Seq<UnitView>, at: Seq<usize>, name: Seq<char>) -> bool {
    exists|k: int| 0 <= k < at.len() && units[(#[trigger] at[k]) as int].unit == name
}

/// A unit is to be up while the GPU is free: it is to be restarted eagerly, no
/// operator holds it, and no higher tier preempts it.
pub open spec fn wanted_up(
    units: Seq<UnitView>,
    held: Set<Seq<char>>,
    preempted: Seq<usize>,
    i: int,
) -> bool {
    units[i].eager_restart && !held.contains(units[i].unit) && !named_at(
        units,
        preempted,
        units[i].unit,
    )
}

/// The positions of the first `n` units that are to be up.
pub open spec fn wanted(
    units: Seq<UnitView>,
    held: Set<Seq<char>>,
    preempted: Seq<usize>,
    n: int,
) -> Seq<usize>
    decreases n,
{
    if n <= 0 {
        Seq::empty()
    } else {
        let p = wanted(units, held, preempted, n - 1);
        if wanted_up(units, held, preempted, n - 1) {
            p.push((n - 1) as usize)
        } else {
            p
        }
    }
}

/// The positions of the units that are to be up: none unless the GPU is free.
pub open spec fn targets_of(
    desired: State,
    units: Seq<UnitView>,
    held: Set<Seq<char>>,
    preempted: Seq<usize>,
) -> Seq<usize> {
    if desired == State::Available {
        wanted(units, held, preempted, units.len() as int)
    } else {
        Seq::empty()
    }
}

fn is_named_at(cfg: &Config, at: &Vec<usize>, name: &str) -> (r: bool)
    requires
        forall|k: int| 0 <= k < at@.len() ==> (#[trigger] at@[k]) < cfg.units@.len(),
    ensures
        r == named_at(cfg@.units, at@, name@),
{
    let mut k: usize = 0;
    while k < at.len()
        invariant
            k <= at.len(),
            forall|j: int| 0 <= j < at@.len() ==> (#[trigger] at@[j]) < cfg.units@.len(),
            forall|j: int|
                0 <= j < k ==> cfg@.units[(#[trigger] at@[j]) as int].unit != name@,
        decreases at.len() - k,
    {
        proof {
            assert(cfg@.units[at@[k as int] as int] == cfg.units@[at@[k as int] as int]@);
        }
        if same(cfg.units[at[k]].unit.as_str(), name) {
            return true;
        }
        k = k + 1;
    }
    false
}

/// The positions of the units that are to be up.
pub fn ensure_running_targets(
    desired: State,
    cfg: &Config,
    held: &NameMap<()>,
    preempted: &Vec<usize>,
) -> (r: Vec<usize>)
    requires
        held.wf(),
        forall|k: int| 0 <= k < preempted@.len() ==> (#[trigger] preempted@[k]) < cfg.units@.len(),
    ensures
        r@ == targets_of(desired, cfg@.units, held@.dom(), preempted@),
{
    let mut out: Vec<usize> = Vec::new();
    proof {
        assert(out@ =~= Seq::empty());
    }
    if desired != State::Available {
        return out;
    }
    let mut i: usize = 0;
    while i < cfg.units.len()
        invariant
            i <= cfg.units.len(),
            held.wf(),
            forall|k: int|
                0 <= k < preempted@.len() ==> (#[trigger] preempted@[k]) < cfg.units@.len(),
            out@ == wanted(cfg@.units, held@.dom(), preempted@, i as int),
        decreases cfg.units.len() - i,
    {
        let u = &cfg.units[i];
        proof {
            assert(cfg@.units[i as int] == u@);
        }
        if u.eager_restart && held.get(u.unit.as_str()).is_none() && !is_named_at(
            cfg,
            preempted,
            u.unit.as_str(),
        ) {
            out.push(i);
        }
        i = i + 1;
    }
    out
}

/// Every target is a unit that is to be up.
pub proof fn lemma_wanted(
    units: Seq<UnitView>,
    held: Set<Seq<char>>,
    preempted: Seq<usize>,
    n: int,
)
    requires
        0 <= n <= units.len() <= usize::MAX,
    ensures
        forall|k: int|
            0 <= k < wanted(units, held, preempted, n).len() ==> {
                let i = (#[trigger] wanted(units, held, preempted, n)[k]) as int;
                0 <= i < n && wanted_up(units, held, preempted, i)
            },
        forall|i: int|
            0 <= i < n && #[trigger] wanted_up(units, held, preempted, i) ==> wanted(
                units,
                held,
                preempted,
                n,
            ).contains(i as usize),
        forall|a: int, b: int|
            0 <= a < b < wanted(units, held, preempted, n).len() ==> (#[trigger] wanted(
                units,
                held,
                preempted,
                n,
            )[a]) < (#[trigger] wanted(units, held, preempted, n)[b]),
        wanted(units, held, preempted, n).len() <= n,
    decreases n,
{
    if n > 0 {
        lemma_wanted(units, held, preempted, n - 1);
        let p = wanted(units, held, preempted, n - 1);
        let w = wanted(units, held, preempted, n);
        assert forall|k: int| 0 <= k < w.len() implies {
            let i = (#[trigger] w[k]) as int;
            0 <= i < n && wanted_up(units, held, preempted, i)
        } by {
            if k < p.len() {
                assert(w[k] == p[k]);
            }
        }
        assert forall|i: int|
            0 <= i < n && #[trigger] wanted_up(units, held, preempted, i) implies w.contains(
            i as usize,
        ) by {
            if i < n - 1 {
                assert(p.contains(i as usize));
                let k = choose|k: int| 0 <= k < p.len() && p[k] == i as usize;
                assert(w[k] == i as usize);
            } else {
                assert(w[w.len() - 1] == i as usize);
            }
        }
    }
}

/// Whether a second observation, just before units are started, is clear.
pub fn ensure_running_toctou_clear(fresh_claims: &[Claim]) -> (r: bool)
    ensures
        r == (claim_views(fresh_claims@).len() == 0),
{
    fresh_claims.len() == 0
}

// ── laws ───────────────────────────────────────────────────────────────────

pub proof fn lemma_top(busy: Seq<u8>)
    ensures
        busy.len() == 0 <==> top_priority(busy) is None,
        forall|k: int| 0 <= k < busy.len() ==> (#[trigger] busy[k]) <= top_priority(busy)->0,
        top_priority(busy) is Some ==> busy.contains(top_priority(busy)->0),
    decreases busy.len(),
{
    if busy.len() > 0 {
        let t = busy.drop_last();
        lemma_top(t);
        assert forall|k: int| 0 <= k < busy.len() implies (#[trigger] busy[k]) <= top_priority(
            busy,
        )->0 by {
            if k < t.len() {
                assert(t[k] == busy[k]);
            }
        }
        let m = top_priority(busy)->0;
        if m == busy.last() {
            assert(busy[busy.len() - 1] == m);
        } else {
            assert(t.contains(m));
            let k = choose|k: int| 0 <= k < t.len() && t[k] == m;
            assert(busy[k] == m);
        }
    }
}

proof fn lemma_below_empty(units: Seq<UnitView>, demand: Option<u8>)
    requires
        demand is Some ==> forall|i: int|
            0 <= i < units.len() ==> (#[trigger] units[i]).priority >= demand->0,
    ensures
        below(units, demand) == Seq::<usize>::empty(),
    decreases units.len(),
{
    if units.len() > 0 {
        let t = units.drop_last();
        assert(demand is Some ==> forall|i: int|
            0 <= i < t.len() ==> (#[trigger] t[i]).priority >= demand->0) by {
            if demand is Some {
                assert forall|i: int| 0 <= i < t.len() implies (#[trigger] t[i]).priority
                    >= demand->0 by {
                    assert(t[i] == units[i]);
                }
            }
        }
        lemma_below_empty(t, demand);
    }
}

/// While nothing claims the GPU and no unit has work, no unit is preempted.
pub proof fn idle_machine_preempts_no_unit(cfg: ConfigView)
    ensures
        demand_of(Seq::empty(), cfg, Seq::empty()) is None,
        below(cfg.units, None) == Seq::<usize>::empty(),
{
    lemma_below_empty(cfg.units, None);
}

/// A game preempts every unit of a tier below its own, whatever the units do.
pub proof fn game_preempts_every_lower_unit(
    claims: Seq<ClaimView>,
    cfg: ConfigView,
    busy: Seq<u8>,
    i: int,
)
    requires
        claims.len() > 0,
        cfg.units.len() <= usize::MAX,
        0 <= i < cfg.units.len(),
        cfg.units[i].priority < cfg.game_priority,
    ensures
        below(cfg.units, demand_of(claims, cfg, busy)).contains(i as usize),
{
    lemma_below(cfg.units, demand_of(claims, cfg, busy));
}

/// Where every unit has the priority of a unit that names none, and a game that of
/// a game where none is named, a game preempts every unit and no unit preempts
/// another.
pub proof fn stock_priorities(claims: Seq<ClaimView>, cfg: ConfigView, busy: Seq<u8>, i: int)
    requires
        cfg.units.len() <= usize::MAX,
        0 <= i < cfg.units.len(),
        cfg.game_priority == crate::config::DEFAULT_GAME_PRIORITY,
        forall|k: int|
            0 <= k < cfg.units.len() ==> (#[trigger] cfg.units[k]).priority
                == crate::config::DEFAULT_UNIT_PRIORITY,
        forall|k: int|
            0 <= k < busy.len() ==> (#[trigger] busy[k]) == crate::config::DEFAULT_UNIT_PRIORITY,
    ensures
        claims.len() > 0 ==> below(cfg.units, demand_of(claims, cfg, busy)).contains(i as usize),
        claims.len() == 0 ==> below(cfg.units, demand_of(claims, cfg, busy))
            == Seq::<usize>::empty(),
{
    lemma_top(busy);
    if claims.len() > 0 {
        game_preempts_every_lower_unit(claims, cfg, busy, i);
    } else {
        lemma_below_empty(cfg.units, demand_of(claims, cfg, busy));
    }
}

/// A unit at or above the demand is not preempted: not by itself, not by a unit of
/// its own tier, and not by a game that it stands level with or above.
pub proof fn at_or_above_the_demand_stays(cfg: ConfigView, demand: Option<u8>, i: int)
    requires
        cfg.units.len() <= usize::MAX,
        0 <= i < cfg.units.len(),
        demand is None || cfg.units[i].priority >= demand->0,
    ensures
        !below(cfg.units, demand).contains(i as usize),
{
    lemma_below(cfg.units, demand);
    if below(cfg.units, demand).contains(i as usize) {
        let k = choose|k: int|
            0 <= k < below(cfg.units, demand).len() && below(cfg.units, demand)[k] == i as usize;
        assert(cfg.units[below(cfg.units, demand)[k] as int].priority < demand->0);
    }
}

/// Without a game, the highest of the busy units is never preempted.
pub proof fn top_busy_unit_is_not_preempted(cfg: ConfigView, busy: Seq<u8>, i: int)
    requires
        cfg.units.len() <= usize::MAX,
        0 <= i < cfg.units.len(),
        forall|k: int| 0 <= k < busy.len() ==> (#[trigger] busy[k]) <= cfg.units[i].priority,
    ensures
        !below(cfg.units, demand_of(Seq::empty(), cfg, busy)).contains(i as usize),
{
    lemma_top(busy);
    let d = demand_of(Seq::empty(), cfg, busy);
    if d is Some {
        let k = choose|k: int| 0 <= k < busy.len() && busy[k] == d->0;
        assert(busy[k] <= cfg.units[i].priority);
    }
    at_or_above_the_demand_stays(cfg, d, i);
}

/// While a game runs or is being handed the GPU, no unit is to be brought up.
pub proof fn nothing_is_wanted_up_in_a_game(
    desired: State,
    units: Seq<UnitView>,
    held: Set<Seq<char>>,
    preempted: Seq<usize>,
)
    requires
        desired != State::Available,
    ensures
        targets_of(desired, units, held, preempted).len() == 0,
{
}

/// No unit that an operator holds, that is not eager, or that is preempted is to
/// be brought up.
pub proof fn targets_are_wanted_up(
    desired: State,
    units: Seq<UnitView>,
    held: Set<Seq<char>>,
    preempted: Seq<usize>,
    k: int,
)
    requires
        units.len() <= usize::MAX,
        0 <= k < targets_of(desired, units, held, preempted).len(),
    ensures
        ({
            let i = targets_of(desired, units, held, preempted)[k] as int;
            &&& 0 <= i < units.len()
            &&& units[i].eager_restart
            &&& !held.contains(units[i].unit)
            &&& !named_at(units, preempted, units[i].unit)
        }),
{
    lemma_wanted(units, held, preempted, units.len() as int);
    let w = wanted(units, held, preempted, units.len() as int);
    assert(wanted_up(units, held, preempted, w[k] as int));
}

/// The GPU is wanted at the highest of what wants it: at a game's priority or more
/// where there is a claim, at the priority of every busy unit or more, and at one of
/// these exactly. It is wanted not at all only where nothing wants it.
pub proof fn demand_is_the_highest(claims: Seq<ClaimView>, cfg: ConfigView, busy: Seq<u8>)
    ensures
        ({
            let d = demand_of(claims, cfg, busy);
            &&& d is None <==> claims.len() == 0 && busy.len() == 0
            &&& claims.len() > 0 ==> d->0 >= cfg.game_priority
            &&& forall|k: int| 0 <= k < busy.len() ==> (#[trigger] busy[k]) <= d->0
            &&& d is Some ==> (claims.len() > 0 && d->0 == cfg.game_priority) || busy.contains(d->0)
        }),
{
    lemma_top(busy);
}

/// Under a demand a unit may not run just where its own priority is less. The units
/// come in the order of the configuration, none twice.
pub proof fn lower_units_are_preempted(cfg: ConfigView, demand: Option<u8>, i: int)
    requires
        cfg.units.len() <= usize::MAX,
        0 <= i < cfg.units.len(),
    ensures
        below(cfg.units, demand).contains(i as usize) <==> demand is Some
            && cfg.units[i].priority < demand->0,
        forall|a: int, b: int|
            0 <= a < b < below(cfg.units, demand).len() ==> (#[trigger] below(cfg.units, demand)[a])
                < (#[trigger] below(cfg.units, demand)[b]),
{
    lemma_below(cfg.units, demand);
    if demand is None || cfg.units[i].priority >= demand->0 {
        at_or_above_the_demand_stays(cfg, demand, i);
    }
}

/// A busy unit preempts every unit of a lower tier, game or no game.
pub proof fn busy_unit_preempts_every_lower_unit(
    claims: Seq<ClaimView>,
    cfg: ConfigView,
    busy: Seq<u8>,
    k: int,
    i: int,
)
    requires
        cfg.units.len() <= usize::MAX,
        0 <= i < cfg.units.len(),
        0 <= k < busy.len(),
        cfg.units[i].priority < busy[k],
    ensures
        below(cfg.units, demand_of(claims, cfg, busy)).contains(i as usize),
{
    demand_is_the_highest(claims, cfg, busy);
    lemma_below(cfg.units, demand_of(claims, cfg, busy));
}

/// While the GPU is free every unit that is eager, not held and not preempted is to
/// be brought up, whichever other units are. The units come in the order of the
/// configuration, none twice.
pub proof fn every_wanted_unit_is_a_target(
    units: Seq<UnitView>,
    held: Set<Seq<char>>,
    preempted: Seq<usize>,
    i: int,
)
    requires
        units.len() <= usize::MAX,
        0 <= i < units.len(),
        units[i].eager_restart,
        !held.contains(units[i].unit),
        forall|k: int|
            0 <= k < preempted.len() ==> units[(#[trigger] preempted[k]) as int].unit
                != units[i].unit,
    ensures
        targets_of(State::Available, units, held, preempted).contains(i as usize),
        ({
            let t = targets_of(State::Available, units, held, preempted);
            forall|a: int, b: int| 0 <= a < b < t.len() ==> (#[trigger] t[a]) < (#[trigger] t[b])
        }),
{
    lemma_wanted(units, held, preempted, units.len() as int);
    assert(wanted_up(units, held, preempted, i));
}

/// Units are evicted where a game comes to a free GPU, and only there; they are
/// brought back where the last game has left, and only there.
pub proof fn only_the_edges_act(current: State, desired: State)
    ensures
        action_of(current, desired) is Evict <==> current == State::Available && desired
            == State::Gaming,
        action_of(current, desired) is Restart <==> current == State::Gaming && desired
            == State::Available,
{
}

} // verus!
