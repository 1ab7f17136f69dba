use gpu_arbiter::classify::GpuComputeProc;
use gpu_arbiter::config::Config;
use gpu_arbiter::gpu::{GpuBackend, GpuMemory};
use gpu_arbiter::units::{
    Eviction, EvictionAction, EvictionEvent, EvictionOutcome, EvictionPhase, EvictionSight,
    HookFailure, HookRun, UnitError,
};

const SEC: u64 = 1_000_000_000;

fn nvidia() -> EvictionSight {
    EvictionSight {
        backend: GpuBackend::Nvidia,
        vram_readable: true,
    }
}

fn unit(text: &str) -> Config {
    Config::from_toml(&format!(
        "eviction_timeout_s = 5\n[[managed_units]]\nunit = \"fake.service\"\n{text}\n"
    ))
    .unwrap()
}

fn procs(mb: u64) -> EvictionEvent {
    EvictionEvent::Compute(Some(vec![GpuComputeProc {
        pid: 1,
        name: "x".into(),
        vram_mb: mb,
        owning_unit: Some("fake.service".into()),
    }]))
}

fn memory(mb: u64) -> EvictionEvent {
    EvictionEvent::Memory(Some(GpuMemory {
        used_mb: mb,
        total_mb: 32768,
    }))
}

fn failure() -> UnitError {
    UnitError::Exit {
        action: "stop",
        unit: "fake.service".into(),
        detail: "boom".into(),
    }
}

/// Go through an eviction, checking what it wants at each turn.
fn walk(
    cfg: &Config,
    sight: EvictionSight,
    turns: Vec<(EvictionAction, EvictionEvent, u64)>,
) -> (Eviction, EvictionAction) {
    let (mut e, mut action) = Eviction::begin();
    for (wanted, event, now) in turns {
        assert_eq!(action, wanted);
        let next = e.step(&cfg.units[0], cfg, sight, event, now);
        e = next.0;
        action = next.1;
    }
    (e, action)
}

fn running(b: bool) -> EvictionEvent {
    EvictionEvent::Running(Ok(b))
}

const COMPUTE: EvictionAction = EvictionAction::QueryCompute { with_units: true };

#[test]
fn evict_by_name_already_clear_when_not_running() {
    let (e, a) = walk(
        &unit(""),
        nvidia(),
        vec![(EvictionAction::QueryRunning, running(false), 3)],
    );
    assert_eq!(a, EvictionAction::Finish(Ok(EvictionOutcome::AlreadyClear)));
    assert_eq!(e.timings.total_nanos, 3);
    assert_eq!(e.timings.stop_nanos, None);
    assert_eq!(e.phase, EvictionPhase::Done);
}

#[test]
fn own_vram_decides_once_it_was_seen() {
    let (e, a) = walk(
        &unit(""),
        nvidia(),
        vec![
            (EvictionAction::QueryRunning, running(true), SEC),
            (EvictionAction::Stop, EvictionEvent::Stopped(Ok(())), 2 * SEC),
            (COMPUTE, procs(6000), 3 * SEC),
            (EvictionAction::Sleep, EvictionEvent::Slept, 3 * SEC),
            (COMPUTE, procs(0), 4 * SEC),
        ],
    );
    assert_eq!(a, EvictionAction::Finish(Ok(EvictionOutcome::Freed)));
    assert_eq!(e.timings.stop_nanos, Some(3 * SEC));
    assert_eq!(e.timings.total_nanos, 4 * SEC);
    assert_eq!(e.timings.yield_nanos, None);
    assert!(e.seen_nonzero);
}

#[test]
fn zero_before_anything_was_seen_asks_the_whole_gpu() {
    let (_, a) = walk(
        &unit(""),
        nvidia(),
        vec![
            (EvictionAction::QueryRunning, running(true), 0),
            (EvictionAction::Stop, EvictionEvent::Stopped(Ok(())), 0),
            (COMPUTE, procs(0), 0),
            (EvictionAction::QueryMemory, memory(21000), SEC),
            (EvictionAction::Sleep, EvictionEvent::Slept, SEC),
            (COMPUTE, EvictionEvent::Compute(None), SEC),
            (EvictionAction::QueryMemory, memory(1999), SEC),
        ],
    );
    assert_eq!(a, EvictionAction::Finish(Ok(EvictionOutcome::Freed)));
}

#[test]
fn evict_escalates_when_recheck_cannot_confirm_still_running() {
    let (e, a) = walk(
        &unit(""),
        nvidia(),
        vec![
            (EvictionAction::QueryRunning, running(true), 0),
            (EvictionAction::Stop, EvictionEvent::Stopped(Ok(())), SEC),
            (COMPUTE, procs(6000), 6 * SEC),
            (
                EvictionAction::QueryRunning,
                EvictionEvent::Running(Err(failure())),
                6 * SEC,
            ),
            (EvictionAction::Kill, EvictionEvent::Killed, 7 * SEC),
        ],
    );
    assert_eq!(a, EvictionAction::Finish(Ok(EvictionOutcome::Escalated)));
    assert_eq!(e.timings.stop_nanos, Some(7 * SEC));
}

#[test]
fn unit_that_is_gone_past_its_time_is_freed() {
    let (_, a) = walk(
        &unit(""),
        nvidia(),
        vec![
            (EvictionAction::QueryRunning, running(true), 0),
            (EvictionAction::Stop, EvictionEvent::Stopped(Ok(())), 0),
            (COMPUTE, procs(6000), 5 * SEC),
            (EvictionAction::QueryRunning, running(false), 5 * SEC),
        ],
    );
    assert_eq!(a, EvictionAction::Finish(Ok(EvictionOutcome::Freed)));
}

#[test]
fn failing_commands_end_the_eviction() {
    let (e, a) = walk(
        &unit(""),
        nvidia(),
        vec![
            (EvictionAction::QueryRunning, running(true), 0),
            (EvictionAction::Stop, EvictionEvent::Stopped(Err(failure())), 9),
        ],
    );
    assert_eq!(a, EvictionAction::Finish(Err(failure())));
    assert_eq!(e.timings.stop_nanos, None);
    let (_, a) = walk(
        &unit(""),
        nvidia(),
        vec![(
            EvictionAction::QueryRunning,
            EvictionEvent::Running(Err(failure())),
            0,
        )],
    );
    assert_eq!(a, EvictionAction::Finish(Err(failure())));
}

#[test]
fn yield_without_a_busy_probe_does_not_claim_release() {
    let cfg = unit("yield_cmd = [\"true\"]");
    assert!(cfg.units[0].busy_cmd.is_none());
    let (e, a) = walk(
        &cfg,
        nvidia(),
        vec![(EvictionAction::QueryRunning, running(true), 0)],
    );
    assert_eq!(a, EvictionAction::Stop);
    assert_eq!(e.timings.yield_nanos, Some(0));
}

#[test]
fn idle_probe_after_a_yield_is_a_release() {
    let cfg = unit("yield_cmd = [\"y\"]\nbusy_cmd = [\"b\"]");
    let (e, a) = walk(
        &cfg,
        nvidia(),
        vec![
            (EvictionAction::QueryRunning, running(true), SEC),
            (
                EvictionAction::RunYield,
                EvictionEvent::YieldRan(HookRun::Success),
                2 * SEC,
            ),
            (EvictionAction::ProbeBusy, EvictionEvent::Busy(true), 2 * SEC),
            (EvictionAction::Sleep, EvictionEvent::Slept, 3 * SEC),
            (EvictionAction::ProbeBusy, EvictionEvent::Busy(false), 3 * SEC),
        ],
    );
    assert_eq!(a, EvictionAction::Finish(Ok(EvictionOutcome::Yielded)));
    assert_eq!(e.timings.yield_nanos, Some(2 * SEC));
    assert_eq!(e.timings.stop_nanos, None);
}

#[test]
fn yield_that_takes_too_long_or_fails_is_followed_by_a_stop() {
    let cfg = unit("yield_cmd = [\"y\"]\nbusy_cmd = [\"b\"]\nyield_timeout_s = 2");
    let (e, a) = walk(
        &cfg,
        nvidia(),
        vec![
            (EvictionAction::QueryRunning, running(true), 0),
            (
                EvictionAction::RunYield,
                EvictionEvent::YieldRan(HookRun::Success),
                SEC,
            ),
            (EvictionAction::ProbeBusy, EvictionEvent::Busy(true), 3 * SEC),
        ],
    );
    assert_eq!(a, EvictionAction::Stop);
    assert_eq!(e.timings.yield_nanos, Some(3 * SEC));
    assert_eq!(e.stop_from, 3 * SEC);
    let (_, a) = walk(
        &cfg,
        nvidia(),
        vec![
            (EvictionAction::QueryRunning, running(true), 0),
            (
                EvictionAction::RunYield,
                EvictionEvent::YieldRan(HookRun::Failed(HookFailure::NonZero)),
                SEC,
            ),
        ],
    );
    assert_eq!(a, EvictionAction::Stop);
}

#[test]
fn yield_budget_is_the_configured_one_where_the_unit_names_none() {
    let cfg = unit("yield_cmd = [\"y\"]\nbusy_cmd = [\"b\"]");
    assert_eq!(cfg.yield_timeout_s, 3);
    let turns = |now: u64| {
        vec![
            (EvictionAction::QueryRunning, running(true), 0),
            (
                EvictionAction::RunYield,
                EvictionEvent::YieldRan(HookRun::Success),
                0,
            ),
            (EvictionAction::ProbeBusy, EvictionEvent::Busy(true), now),
        ]
    };
    assert_eq!(walk(&cfg, nvidia(), turns(3 * SEC - 1)).1, EvictionAction::Sleep);
    assert_eq!(walk(&cfg, nvidia(), turns(3 * SEC)).1, EvictionAction::Stop);
}

#[test]
fn amd_and_unnamed_units_are_judged_by_the_whole_gpu() {
    let amd = EvictionSight {
        backend: GpuBackend::Amd,
        vram_readable: true,
    };
    let stopped = || {
        vec![
            (EvictionAction::QueryRunning, running(true), 0),
            (EvictionAction::Stop, EvictionEvent::Stopped(Ok(())), 0),
        ]
    };
    assert_eq!(walk(&unit(""), amd, stopped()).1, EvictionAction::QueryMemory);
    let own = unit("stop_cmd = [\"s\"]");
    assert_eq!(walk(&own, nvidia(), stopped()).1, EvictionAction::QueryMemory);
    let named = unit("stop_cmd = [\"s\"]\nvram_match = \"x\"");
    assert_eq!(
        walk(&named, nvidia(), stopped()).1,
        EvictionAction::QueryCompute { with_units: false }
    );
}

#[test]
fn platform_without_vram_asks_whether_the_unit_runs() {
    let blind = EvictionSight {
        backend: GpuBackend::Nvidia,
        vram_readable: false,
    };
    let (_, a) = walk(
        &unit(""),
        blind,
        vec![
            (EvictionAction::QueryRunning, running(true), 0),
            (EvictionAction::Stop, EvictionEvent::Stopped(Ok(())), 0),
            (EvictionAction::QueryRunning, running(true), SEC),
            (EvictionAction::Sleep, EvictionEvent::Slept, SEC),
            (EvictionAction::QueryRunning, running(false), SEC),
        ],
    );
    assert_eq!(a, EvictionAction::Finish(Ok(EvictionOutcome::Freed)));
}
