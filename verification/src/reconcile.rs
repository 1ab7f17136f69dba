//! What a pass is made of, and the statuses that it leaves behind.

use vstd::prelude::*;

use crate::classify::{proc_views, GpuComputeProc, GpuProcView};
use crate::config::{Config, ConfigView, ManagedUnit, UnitView};
use crate::gpu::{
    any_where, by_name, by_unit, name_sum_fits, unit_sum_fits, vram_mb_by_cgroup,
    vram_mb_matching, vram_where, GpuMemory,
};
use crate::state::{ArbiterState, Presence, StateView, UnitStatus, UnitStatusView};
use crate::text::{copy_texts, texts};

pub use crate::ladder::{
    effective_demand, ensure_running_targets, ensure_running_toctou_clear, preempted_positions,
    preempted_units, unit_action, UnitAction,
};
pub use crate::observe::{
    claim_set, claims_of, flatten_cmdline, flatten_text, ObservationView, ProcInfo, ProcSnapshot,
};
pub use crate::pass::{Pass, PassAction, PassEvent, PassPhase};

verus! {

/// What was read of one unit.
#[derive(Debug, Clone, PartialEq, Eq)]
pub struct UnitReading {
    /// Whether it runs; nothing where that could not be told.
    pub running: Option<bool>,
    /// The models that it has loaded.
    pub models: Vec<String>,
}

/// What was read of the units, the GPU and the desk.
#[derive(Debug, Clone, PartialEq, Eq)]
pub struct SubstateReading {
    /// Of each managed unit, in order.
    pub units: Vec<UnitReading>,
    /// The compute processes with their units, where they could be listed.
    pub compute: Option<Vec<GpuComputeProc>>,
    /// The memory of the whole GPU, where it could be read.
    pub memory: Option<GpuMemory>,
    /// What is known of the people at the desk.
    pub presence: Presence,
}

/// The value of a [`SubstateReading`].
pub struct SubstateView {
    pub running: Seq<Option<bool>>,
    pub models: Seq<Seq<Seq<char>>>,
    pub compute: Option<Seq<GpuProcView>>,
    pub memory: Option<GpuMemory>,
    pub presence: Presence,
}

impl View for SubstateReading {
    type V = SubstateView;

    open spec fn view(&self) -> SubstateView {
        SubstateView {
            running: Seq::new(self.units@.len(), |i: int| self.units@[i].running),
            models: Seq::new(self.units@.len(), |i: int| texts(self.units@[i].models@)),
            compute: match self.compute {
                Some(c) => Some(proc_views(c@)),
                None => None,
            },
            memory: self.memory,
            presence: self.presence,
        }
    }
}

/// A unit is known to run.
pub open spec fn known_up(running: Option<bool>) -> bool {
    running == Some(true)
}

/// Models and VRAM are asked for only of a unit that is known to run.
pub fn wants_models(running: Option<bool>) -> (r: bool)
    ensures
        r == known_up(running),
{
    match running {
        Some(b) => b,
        None => false,
    }
}

/// The VRAM that is shown of a unit that runs: that of its control group, where a
/// process of it is listed; else that of the processes it names.
pub open spec fn shown_vram(u: UnitView, compute: Option<Seq<GpuProcView>>) -> Option<u64> {
    match compute {
        None => None,
        Some(procs) => if any_where(procs, by_unit(u.unit)) {
            Some(vram_where(procs, by_unit(u.unit)) as u64)
        } else {
            match u.vram_match {
                Some(needle) => if any_where(procs, by_name(needle)) {
                    Some(vram_where(procs, by_name(needle)) as u64)
                } else {
                    None
                },
                None => None,
            }
        },
    }
}

/// The sums that [`shown_vram`] takes are numbers that a `u64` can hold.
pub open spec fn vram_shows(u: UnitView, compute: Option<Seq<GpuProcView>>) -> bool {
    match compute {
        None => true,
        Some(procs) => vram_where(procs, by_unit(u.unit)) <= u64::MAX && (any_where(
            procs,
            by_unit(u.unit),
        ) || u.vram_match is None || vram_where(procs, by_name(u.vram_match->0)) <= u64::MAX),
    }
}

/// The VRAM of every unit that runs can be shown.
pub open spec fn all_vram_shows(cfg: ConfigView, r: SubstateView) -> bool {
    forall|i: int|
        0 <= i < cfg.units.len() && r.running[i] == Some(true) ==> vram_shows(
            #[trigger] cfg.units[i],
            r.compute,
        )
}

/// The status of a unit.
pub open spec fn status_of(
    u: UnitView,
    running: Option<bool>,
    models: Seq<Seq<char>>,
    compute: Option<Seq<GpuProcView>>,
    held: Set<Seq<char>>,
) -> UnitStatusView {
    UnitStatusView {
        unit: u.unit,
        running,
        models: if running == Some(true) {
            models
        } else {
            Seq::empty()
        },
        vram_mb: if running == Some(true) {
            shown_vram(u, compute)
        } else {
            None
        },
        held: held.contains(u.unit),
    }
}

/// The state with the statuses read anew. Memory that could not be read stays as
/// it was.
pub open spec fn refreshed(s: StateView, cfg: ConfigView, r: SubstateView) -> StateView {
    StateView {
        units: Seq::new(
            cfg.units.len(),
            |i: int| status_of(cfg.units[i], r.running[i], r.models[i], r.compute, s.held),
        ),
        presence: r.presence,
        gpu_vram_used_mb: match r.memory {
            Some(m) => m.used_mb,
            None => s.gpu_vram_used_mb,
        },
        gpu_vram_total_mb: match r.memory {
            Some(m) => m.total_mb,
            None => s.gpu_vram_total_mb,
        },
        ..s
    }
}

fn vram_of(u: &ManagedUnit, compute: &Option<Vec<GpuComputeProc>>) -> (r: Option<u64>)
    requires
        vram_shows(
            u@,
            match *compute {
                Some(c) => Some(proc_views(c@)),
                None => None,
            },
        ),
    ensures
        r == shown_vram(
            u@,
            match *compute {
                Some(c) => Some(proc_views(c@)),
                None => None,
            },
        ),
{
    match compute {
        None => None,
        Some(procs) => {
            match vram_mb_by_cgroup(procs.as_slice(), u.unit.as_str()) {
                Some(n) => Some(n),
                None => match &u.vram_match {
                    Some(needle) => vram_mb_matching(procs.as_slice(), needle.as_str()),
                    None => None,
                },
            }
        },
    }
}

fn vram_fits(u: &ManagedUnit, compute: &Option<Vec<GpuComputeProc>>) -> (r: bool)
    ensures
        r == vram_shows(
            u@,
            match *compute {
                Some(c) => Some(proc_views(c@)),
                None => None,
            },
        ),
{
    match compute {
        None => true,
        Some(procs) => {
            if !unit_sum_fits(procs.as_slice(), u.unit.as_str()) {
                return false;
            }
            match &u.vram_match {
                None => true,
                Some(needle) => vram_mb_by_cgroup(procs.as_slice(), u.unit.as_str()).is_some()
                    || name_sum_fits(procs.as_slice(), needle.as_str()),
            }
        },
    }
}

/// Whether the VRAM of every unit that runs can be shown.
pub fn substate_fits(cfg: &Config, r: &SubstateReading) -> (fits: bool)
    requires
        r.units@.len() == cfg.units@.len(),
    ensures
        fits == all_vram_shows(cfg@, r@),
{
    let mut i: usize = 0;
    while i < cfg.units.len()
        invariant
            i <= cfg.units.len(),
            r.units@.len() == cfg.units@.len(),
            forall|j: int|
                0 <= j < i && r@.running[j] == Some(true) ==> vram_shows(
                    #[trigger] cfg@.units[j],
                    r@.compute,
                ),
        decreases cfg.units.len() - i,
    {
        proof {
            assert(cfg@.units[i as int] == cfg.units@[i as int]@);
            assert(r@.running[i as int] == r.units@[i as int].running);
        }
        if wants_models(r.units[i].running) && !vram_fits(&cfg.units[i], &r.compute) {
            return false;
        }
        i = i + 1;
    }
    true
}

/// Take in what was read of the units, the GPU and the desk.
pub fn refresh_substate(st: &mut ArbiterState, cfg: &Config, r: SubstateReading)
    requires
        old(st).wf(),
        r.units@.len() == cfg.units@.len(),
        all_vram_shows(cfg@, r@),
    ensures
        final(st).wf(),
        final(st)@ == refreshed(old(st)@, cfg@, r@),
{
    let mut statuses: Vec<UnitStatus> = Vec::new();
    let ghost s0 = st@;
    let mut i: usize = 0;
    while i < cfg.units.len()
        invariant
            i <= cfg.units.len(),
            st.wf(),
            st@ == s0,
            r.units@.len() == cfg.units@.len(),
            all_vram_shows(cfg@, r@),
            statuses@.len() == i,
            forall|j: int|
                0 <= j < i ==> (#[trigger] statuses@[j])@ == status_of(
                    cfg@.units[j],
                    r@.running[j],
                    r@.models[j],
                    r@.compute,
                    s0.held,
                ),
        decreases cfg.units.len() - i,
    {
        let u = &cfg.units[i];
        let running = r.units[i].running;
        let up: bool = wants_models(running);
        let models: Vec<String> = if up {
            copy_texts(r.units[i].models.as_slice())
        } else {
            let none: Vec<String> = Vec::new();
            proof {
                assert(texts(none@) =~= Seq::empty());
            }
            none
        };
        proof {
            assert(cfg@.units[i as int] == u@);
            assert(r@.running[i as int] == running);
        }
        let vram_mb: Option<u64> = if up {
            vram_of(u, &r.compute)
        } else {
            None
        };
        proof {
            assert(r@.models[i as int] == texts(r.units@[i as int].models@));
        }
        let held: bool = st.held.get(u.unit.as_str()).is_some();
        statuses.push(UnitStatus { unit: u.unit.clone(), running, models, vram_mb, held });
        i = i + 1;
    }
    st.units = statuses;
    st.presence = r.presence;
    if let Some(m) = r.memory {
        st.gpu_vram_used_mb = m.used_mb;
        st.gpu_vram_total_mb = m.total_mb;
    }
    proof {
        assert(st@.units =~= refreshed(s0, cfg@, r@).units);
    }
}

// ── laws ───────────────────────────────────────────────────────────────────

/// A unit that is not known to run is shown without models and without VRAM,
/// whatever was read of it.
pub proof fn unknown_unit_shows_nothing(
    u: UnitView,
    running: Option<bool>,
    models: Seq<Seq<char>>,
    compute: Option<Seq<GpuProcView>>,
    held: Set<Seq<char>>,
)
    requires
        running != Some(true),
    ensures
        status_of(u, running, models, compute, held).models.len() == 0,
        status_of(u, running, models, compute, held).vram_mb is None,
        status_of(u, running, models, compute, held).running == running,
{
}

/// The VRAM that is shown of a unit that runs is that of its control group wherever a
/// process of it is listed; a text that it names counts only where none is.
pub proof fn control_group_comes_first(
    u: UnitView,
    procs: Seq<GpuProcView>,
    other: Option<Seq<char>>,
    i: int,
)
    requires
        0 <= i < procs.len(),
        procs[i].owning_unit == Some(u.unit),
    ensures
        shown_vram(u, Some(procs)) is Some,
        shown_vram(u, Some(procs)) == shown_vram(UnitView { vram_match: other, ..u }, Some(procs)),
        shown_vram(u, Some(procs)) == Some(vram_where(procs, by_unit(u.unit)) as u64),
        shown_vram(u, None) is None,
{
    assert(by_unit(u.unit)(procs[i]));
}

/// Where no process of the control group is listed, the VRAM is that of the processes
/// that the unit's text picks, and none is shown where it picks none.
pub proof fn text_comes_second(u: UnitView, procs: Seq<GpuProcView>)
    requires
        forall|i: int| 0 <= i < procs.len() ==> (#[trigger] procs[i]).owning_unit != Some(u.unit),
    ensures
        u.vram_match is None ==> shown_vram(u, Some(procs)) is None,
        u.vram_match is Some ==> {
            let f = by_name(u.vram_match->0);
            &&& shown_vram(u, Some(procs)) is Some <==> exists|i: int|
                0 <= i < procs.len() && f(#[trigger] procs[i])
            &&& shown_vram(u, Some(procs)) is Some ==> shown_vram(u, Some(procs)) == Some(
                vram_where(procs, f) as u64,
            )
        },
{
    assert(!any_where(procs, by_unit(u.unit))) by {
        if any_where(procs, by_unit(u.unit)) {
            let i = choose|i: int| 0 <= i < procs.len() && by_unit(u.unit)(#[trigger] procs[i]);
            assert(procs[i].owning_unit != Some(u.unit));
        }
    }
}

/// A refresh shows every unit, in the order of the configuration: whether it runs, its
/// models and VRAM where it does, and whether an operator holds it. Memory that could
/// not be read stays; and the state, the claims, the holds and the counters are not
/// touched.
pub proof fn refresh_shows_every_unit(s: StateView, cfg: ConfigView, r: SubstateView, i: int)
    requires
        0 <= i < cfg.units.len(),
    ensures
        ({
            let n = refreshed(s, cfg, r);
            let u = n.units[i];
            &&& n.units.len() == cfg.units.len()
            &&& u.unit == cfg.units[i].unit
            &&& u.running == r.running[i]
            &&& u.held <==> s.held.contains(cfg.units[i].unit)
            &&& r.running[i] == Some(true) ==> u.models == r.models[i] && u.vram_mb == shown_vram(
                cfg.units[i],
                r.compute,
            )
            &&& n.presence == r.presence
            &&& r.memory is Some ==> n.gpu_vram_used_mb == r.memory->0.used_mb
                && n.gpu_vram_total_mb == r.memory->0.total_mb
            &&& r.memory is None ==> n.gpu_vram_used_mb == s.gpu_vram_used_mb
                && n.gpu_vram_total_mb == s.gpu_vram_total_mb
            &&& n.state == s.state && n.since == s.since && n.claims == s.claims && n.held
                == s.held && n.degraded == s.degraded && n.metrics == s.metrics
        }),
{
}

/// Only a unit of which it was told that it runs is known to.
pub proof fn not_known_is_not_up(running: Option<bool>)
    ensures
        known_up(running) <==> running is Some && running->0,
{
}

} // verus!
