use gpu_arbiter::classify::GpuGraphicsProc;
use gpu_arbiter::config::Config;
use gpu_arbiter::gpu::GpuMemory;
use gpu_arbiter::reconcile::{
    refresh_substate, substate_fits, wants_models, Pass, PassAction, PassEvent, ProcInfo, ProcSnapshot,
    SubstateReading, UnitReading,
};
use gpu_arbiter::state::{
    ArbiterState, EvictionStage, ManualActionError, Presence, ReconcileTrigger, State, UnixTime,
};
use gpu_arbiter::units::{EvictionOutcome, EvictionTimings, UnitError};

fn at(secs: i64) -> UnixTime {
    UnixTime { secs, nanos: 0 }
}

fn fresh() -> ArbiterState {
    ArbiterState::new(at(0))
}

/// A machine to run passes on: what its units do and what can be observed.
struct World {
    running: Vec<Option<bool>>,
    busy: Vec<bool>,
    cmdlines: Vec<Vec<&'static str>>,
    start_works: bool,
    evictions: Vec<Result<EvictionOutcome, UnitError>>,
    log: Vec<PassAction>,
    reply: Option<Result<(), ManualActionError>>,
}

impl World {
    fn new(running: &[Option<bool>]) -> World {
        World {
            running: running.to_vec(),
            busy: vec![false; running.len()],
            cmdlines: vec![],
            start_works: true,
            evictions: vec![],
            log: vec![],
            reply: None,
        }
    }

    fn observe(&mut self) -> ProcSnapshot {
        let lines = if self.cmdlines.is_empty() {
            vec![]
        } else {
            self.cmdlines.remove(0)
        };
        ProcSnapshot {
            procs: lines
                .iter()
                .map(|l| ProcInfo {
                    pid: 1,
                    cmdline: l.to_string(),
                })
                .collect(),
            gpu_graphics: vec![],
        }
    }

    fn run(&mut self, st: &mut ArbiterState, cfg: &Config, trigger: ReconcileTrigger) {
        let now = at(100);
        let (mut pass, mut action) = Pass::begin(trigger, st, cfg);
        loop {
            self.log.push(action);
            let event = match action {
                PassAction::Reply(r) => {
                    self.reply = Some(r);
                    PassEvent::Replied
                }
                PassAction::StartUnit(i) => {
                    if self.start_works {
                        self.running[i] = Some(true);
                    }
                    PassEvent::Started(self.start_works)
                }
                PassAction::EvictUnit(i) => {
                    let r = if self.evictions.is_empty() {
                        match self.running[i] {
                            Some(false) => Ok(EvictionOutcome::AlreadyClear),
                            _ => Ok(EvictionOutcome::Freed),
                        }
                    } else {
                        self.evictions.remove(0)
                    };
                    if r.is_ok() {
                        self.running[i] = Some(false);
                    }
                    PassEvent::Evicted(
                        r,
                        EvictionTimings {
                            yield_nanos: None,
                            stop_nanos: Some(7),
                            total_nanos: 9,
                        },
                    )
                }
                PassAction::Observe => PassEvent::Observed(self.observe()),
                PassAction::ProbeBusy(i) => PassEvent::Busy(self.busy[i]),
                PassAction::QueryRunning(i) => PassEvent::Running(self.running[i]),
                PassAction::Resume(_) => PassEvent::Resumed,
                PassAction::Refresh => {
                    refresh_substate(st, cfg, self.reading());
                    PassEvent::Refreshed
                }
                PassAction::Finish | PassAction::GiveUp => return,
            };
            let next = pass.step(st, cfg, event, now);
            pass = next.0;
            action = next.1;
        }
    }

    fn reading(&self) -> SubstateReading {
        SubstateReading {
            units: self
                .running
                .iter()
                .map(|r| UnitReading {
                    running: *r,
                    models: vec!["m".to_string()],
                })
                .collect(),
            compute: None,
            memory: None,
            presence: Presence {
                last_input_unix: 5,
                devices: 1,
                monitor_up: false,
            },
        }
    }

    fn started(&self) -> Vec<usize> {
        self.log
            .iter()
            .filter_map(|a| match a {
                PassAction::StartUnit(i) => Some(*i),
                _ => None,
            })
            .collect()
    }

    fn evicted(&self) -> Vec<usize> {
        self.log
            .iter()
            .filter_map(|a| match a {
                PassAction::EvictUnit(i) => Some(*i),
                _ => None,
            })
            .collect()
    }
}

fn one(eager: bool) -> Config {
    Config::from_toml(&format!(
        "[[managed_units]]\nunit = \"fake.service\"\neager_restart = {eager}\n"
    ))
    .unwrap()
}

fn failure() -> UnitError {
    UnitError::Exit {
        action: "stop",
        unit: "x".into(),
        detail: "boom".into(),
    }
}

fn start(unit: &str) -> ReconcileTrigger {
    ReconcileTrigger::ManualStart { unit: unit.into() }
}

fn stop(unit: &str) -> ReconcileTrigger {
    ReconcileTrigger::ManualStop { unit: unit.into() }
}

const STEAM: &str = "SteamLaunch AppId=440";

#[test]
fn reconcile_empty_observation_drives_available() {
    let cfg = Config::default();
    let mut s = fresh();
    s.state = State::Gaming;
    World::new(&[Some(true)]).run(&mut s, &cfg, ReconcileTrigger::Timer);
    assert_eq!(s.state, State::Available);
    assert!(s.claims.is_empty());
    assert_eq!(s.since, at(100));
}

#[test]
fn reconcile_populates_per_unit_substate_in_order() {
    let cfg = Config::from_toml(
        "[[managed_units]]\nunit = \"ollama.service\"\n[[managed_units]]\nunit = \"vllm.service\"\n",
    )
    .unwrap();
    let mut s = fresh();
    World::new(&[Some(true), None]).run(&mut s, &cfg, ReconcileTrigger::Timer);
    assert_eq!(s.units.len(), 2);
    assert_eq!(s.units[0].unit, "ollama.service");
    assert_eq!(s.units[1].unit, "vllm.service");
    assert_eq!(s.units[0].models, vec!["m"]);
}

#[test]
fn reconcile_snapshots_presence_into_state() {
    let cfg = Config::default();
    let mut s = fresh();
    World::new(&[Some(true)]).run(&mut s, &cfg, ReconcileTrigger::Timer);
    assert_eq!(s.presence.last_input_unix, 5);
    assert!(!s.presence.monitor_up);
}

#[test]
fn manual_start_trigger_starts_unit_and_replies_ok() {
    let mut s = fresh();
    let mut w = World::new(&[Some(false)]);
    w.run(&mut s, &one(false), start("fake.service"));
    assert_eq!(w.reply, Some(Ok(())));
    assert_eq!(w.started(), vec![0]);
}

#[test]
fn manual_stop_trigger_evicts_unit_and_replies_ok() {
    let mut s = fresh();
    let mut w = World::new(&[Some(true)]);
    w.run(&mut s, &one(true), stop("fake.service"));
    assert_eq!(w.reply, Some(Ok(())));
    assert_eq!(w.evicted(), vec![0]);
}

#[test]
fn manual_start_records_unit_restart_metric() {
    let mut s = fresh();
    World::new(&[Some(true)]).run(&mut s, &one(true), start("fake.service"));
    assert_eq!(s.metrics.unit_restarts.get("fake.service"), Some(1));
}

#[test]
fn manual_stop_records_eviction_metric() {
    let mut s = fresh();
    let mut w = World::new(&[Some(true)]);
    w.evictions = vec![Ok(EvictionOutcome::Escalated)];
    w.run(&mut s, &one(true), stop("fake.service"));
    assert_eq!(s.metrics.evictions.get("fake.service").unwrap().sigkill, 1);
    assert!(s.metrics.eviction_durations.get("fake.service").is_none());
}

#[test]
fn every_trigger_kind_records_a_reconcile_pass() {
    let cfg = Config::default();
    let mut s = fresh();
    World::new(&[Some(true)]).run(&mut s, &cfg, ReconcileTrigger::Timer);
    assert_eq!(s.metrics.reconcile_passes.timer, 1);
    World::new(&[Some(true)]).run(&mut s, &cfg, ReconcileTrigger::ProcEvent);
    assert_eq!(s.metrics.reconcile_passes.proc_event, 1);
    World::new(&[Some(true)]).run(&mut s, &cfg, ReconcileTrigger::Startup);
    assert_eq!(s.metrics.reconcile_passes.startup, 1);
    World::new(&[Some(true)]).run(&mut s, &cfg, start("not-a-real-unit"));
    assert_eq!(s.metrics.reconcile_passes.manual, 1);
}

#[test]
fn manual_start_unknown_unit_replies_err_and_reconcile_still_succeeds() {
    let cfg = Config::default();
    let mut s = fresh();
    let mut w = World::new(&[Some(true)]);
    w.run(&mut s, &cfg, start("not-a-real-unit"));
    assert_eq!(w.reply, Some(Err(ManualActionError::Failed)));
    assert_eq!(*w.log.last().unwrap(), PassAction::Finish);
    let mut w = World::new(&[Some(true)]);
    w.run(&mut s, &cfg, stop("not-a-real-unit"));
    assert_eq!(w.reply, Some(Err(ManualActionError::Failed)));
    assert_eq!(s.metrics.evictions.get("not-a-real-unit").unwrap().error, 1);
    assert!(s.held.get("not-a-real-unit").is_some());
}

#[test]
fn manual_trigger_still_runs_the_rest_of_the_pass() {
    let mut s = fresh();
    World::new(&[Some(true)]).run(&mut s, &one(true), start("fake.service"));
    assert_eq!(s.units.len(), 1);
}

#[test]
fn held_unit_survives_manual_stop_then_timer_reconcile() {
    let cfg = one(true);
    let mut s = fresh();
    let mut w = World::new(&[Some(true)]);
    w.run(&mut s, &cfg, stop("fake.service"));
    assert_eq!(w.reply, Some(Ok(())));
    assert!(s.held.get("fake.service").is_some());
    assert!(w.started().is_empty());
    w.run(&mut s, &cfg, ReconcileTrigger::Timer);
    assert!(w.started().is_empty());
    assert!(s.units[0].held);
}

#[test]
fn manual_start_clears_hold_and_restarts_unit() {
    let cfg = one(true);
    let mut s = fresh();
    let mut w = World::new(&[Some(true)]);
    w.run(&mut s, &cfg, stop("fake.service"));
    assert!(s.held.get("fake.service").is_some());
    w.run(&mut s, &cfg, start("fake.service"));
    assert_eq!(w.reply, Some(Ok(())));
    assert_eq!(w.started(), vec![0]);
    assert!(s.held.get("fake.service").is_none());
    assert!(!s.units[0].held);
}

#[test]
fn manual_start_that_fails_keeps_the_hold() {
    let cfg = one(true);
    let mut s = fresh();
    s.held.set("fake.service", ());
    let mut w = World::new(&[Some(false)]);
    w.start_works = false;
    w.run(&mut s, &cfg, start("fake.service"));
    assert_eq!(w.reply, Some(Err(ManualActionError::Failed)));
    assert!(s.held.get("fake.service").is_some());
}

#[test]
fn manual_start_during_gaming_is_rejected_unit_not_started_hold_preserved() {
    let mut s = fresh();
    s.set_state(State::Gaming, at(1));
    s.held.set("fake.service", ());
    let mut w = World::new(&[Some(false)]);
    w.run(&mut s, &one(true), start("fake.service"));
    assert_eq!(w.reply, Some(Err(ManualActionError::GpuHeldByGame)));
    assert!(w.started().is_empty());
    assert!(s.held.get("fake.service").is_some());
}

#[test]
fn manual_start_during_evicting_is_rejected() {
    let mut s = fresh();
    s.set_state(State::Evicting, at(1));
    s.held.set("fake.service", ());
    let mut w = World::new(&[Some(false)]);
    w.run(&mut s, &one(true), start("fake.service"));
    assert_eq!(w.reply, Some(Err(ManualActionError::GpuHeldByGame)));
    assert!(w.started().is_empty());
    assert!(s.held.get("fake.service").is_some());
}

#[test]
fn ensure_running_starts_stopped_eager_unit_when_available() {
    let mut s = fresh();
    let mut w = World::new(&[Some(false)]);
    w.run(&mut s, &one(true), ReconcileTrigger::Timer);
    assert_eq!(s.state, State::Available);
    assert_eq!(w.started(), vec![0]);
    assert_eq!(s.metrics.unit_restarts.get("fake.service"), Some(1));
}

#[test]
fn ensure_running_skips_already_running_unit() {
    let mut s = fresh();
    let mut w = World::new(&[Some(true)]);
    w.run(&mut s, &one(true), ReconcileTrigger::Timer);
    assert!(w.started().is_empty());
    assert!(w.log.contains(&PassAction::Resume(0)));
}

#[test]
fn ensure_running_does_not_start_non_eager_unit() {
    let mut s = fresh();
    let mut w = World::new(&[Some(false)]);
    w.run(&mut s, &one(false), ReconcileTrigger::Timer);
    assert!(w.started().is_empty());
}

#[test]
fn ensure_running_starts_when_is_running_cannot_confirm() {
    let mut s = fresh();
    let mut w = World::new(&[None]);
    w.run(&mut s, &one(true), ReconcileTrigger::Timer);
    assert_eq!(w.started(), vec![0]);
}

#[test]
fn ensure_running_continues_when_start_fails() {
    let mut s = fresh();
    let mut w = World::new(&[Some(false)]);
    w.start_works = false;
    w.run(&mut s, &one(true), ReconcileTrigger::Timer);
    assert_eq!(*w.log.last().unwrap(), PassAction::Finish);
    assert_eq!(s.state, State::Available);
    assert_eq!(s.metrics.unit_restarts.get("fake.service"), None);
}

#[test]
fn ensure_running_starts_after_clean_gaming_exit() {
    let mut s = fresh();
    s.state = State::Gaming;
    let mut w = World::new(&[Some(false)]);
    w.run(&mut s, &one(true), ReconcileTrigger::Timer);
    assert_eq!(s.state, State::Available);
    assert_eq!(w.started(), vec![0]);
}

#[test]
fn claim_that_appears_mid_pass_stops_the_start() {
    let mut s = fresh();
    let mut w = World::new(&[Some(false)]);
    w.cmdlines = vec![vec![], vec![STEAM]];
    w.run(&mut s, &one(true), ReconcileTrigger::Timer);
    assert!(w.started().is_empty());
    assert_eq!(s.state, State::Available);
    assert_eq!(*w.log.last().unwrap(), PassAction::Finish);
}

#[test]
fn startup_into_a_live_game_starts_nothing() {
    let mut s = fresh();
    let mut w = World::new(&[Some(false)]);
    w.cmdlines = vec![vec![STEAM]];
    w.run(&mut s, &one(true), ReconcileTrigger::Startup);
    assert_eq!(w.log[0], PassAction::Observe);
    assert!(w.started().is_empty());
    assert_eq!(s.state, State::Gaming);
}

#[test]
fn game_evicts_in_order_and_wins_whatever_comes_of_it() {
    let cfg = Config::from_toml(
        "[[managed_units]]\nunit = \"a\"\n[[managed_units]]\nunit = \"b\"\n[[managed_units]]\nunit = \"c\"\npriority = 100\n",
    )
    .unwrap();
    let mut s = fresh();
    let mut w = World::new(&[Some(true), Some(true), Some(true)]);
    w.cmdlines = vec![vec![STEAM]];
    w.evictions = vec![Err(failure()), Ok(EvictionOutcome::Yielded)];
    w.run(&mut s, &cfg, ReconcileTrigger::ProcEvent);
    assert_eq!(w.evicted(), vec![0, 1]);
    assert_eq!(s.state, State::Gaming);
    assert!(s.degraded);
    assert_eq!(s.metrics.evictions.get("a").unwrap().error, 1);
    assert_eq!(s.metrics.evictions.get("b").unwrap().yielded, 1);
    let d = s.metrics.eviction_durations.get("b").unwrap();
    assert_eq!(d.stage(EvictionStage::Total).unwrap().sum_nanos, 9);
    assert_eq!(d.stage(EvictionStage::Stop).unwrap().count, 1);
    assert!(d.stage(EvictionStage::Yield).is_none());

    w.cmdlines = vec![vec![STEAM]];
    w.log.clear();
    w.run(&mut s, &cfg, ReconcileTrigger::Timer);
    assert!(w.evicted().is_empty());
    assert!(s.degraded, "stays while the game runs");
}

#[test]
fn evict_units_false_when_every_eviction_succeeds() {
    let cfg = one(true);
    let mut s = fresh();
    let mut w = World::new(&[Some(false)]);
    w.cmdlines = vec![vec![STEAM]];
    w.run(&mut s, &cfg, ReconcileTrigger::Timer);
    assert!(!s.degraded);
    assert!(s.metrics.evictions.entries.is_empty());
    assert!(s.metrics.eviction_durations.entries.is_empty());
}

#[test]
fn evict_units_true_when_any_eviction_fails() {
    let cfg = one(true);
    let mut s = fresh();
    let mut w = World::new(&[Some(true)]);
    w.cmdlines = vec![vec![STEAM]];
    w.evictions = vec![Err(failure())];
    w.run(&mut s, &cfg, ReconcileTrigger::Timer);
    assert!(s.degraded);
    assert_eq!(s.metrics.evictions.get("fake.service").unwrap().error, 1);
}

#[test]
fn degraded_clears_on_restart_to_available() {
    let mut s = fresh();
    s.state = State::Gaming;
    s.degraded = true;
    World::new(&[Some(true)]).run(&mut s, &Config::default(), ReconcileTrigger::Timer);
    assert_eq!(s.state, State::Available);
    assert!(!s.degraded);
}

#[test]
fn degraded_clears_when_none_branch_settles_available() {
    let mut s = fresh();
    s.degraded = true;
    World::new(&[Some(true)]).run(&mut s, &Config::default(), ReconcileTrigger::Timer);
    assert!(!s.degraded);
}

#[test]
fn busy_tier_preempts_the_tier_below_without_a_game() {
    let cfg = Config::from_toml(
        "[[managed_units]]\nunit = \"high\"\npriority = 75\n[[managed_units]]\nunit = \"low\"\npriority = 25\n",
    )
    .unwrap();
    let mut s = fresh();
    let mut w = World::new(&[Some(true), Some(true)]);
    w.busy = vec![true, false];
    w.run(&mut s, &cfg, ReconcileTrigger::Timer);
    assert_eq!(w.evicted(), vec![1]);
    assert!(w.started().is_empty());
    assert_eq!(s.state, State::Available);
    assert!(!s.degraded);
    assert!(!w.log.contains(&PassAction::Resume(1)));
    assert!(w.log.contains(&PassAction::Resume(0)));

    w.log.clear();
    w.run(&mut s, &cfg, ReconcileTrigger::Timer);
    assert!(w.evicted().is_empty(), "already stopped");
}

#[test]
fn failed_observation_ends_the_pass() {
    let cfg = one(true);
    let mut s = fresh();
    s.state = State::Gaming;
    let (pass, action) = Pass::begin(ReconcileTrigger::Timer, &mut s, &cfg);
    assert_eq!(action, PassAction::Observe);
    let (_, action) = pass.step(&mut s, &cfg, PassEvent::ObserveFailed, at(1));
    assert_eq!(action, PassAction::GiveUp);
    assert_eq!(s.state, State::Gaming);
}

#[test]
fn statuses_are_read_as_stated() {
    let cfg = Config::from_toml(
        "[[managed_units]]\nunit = \"a.service\"\nvram_match = \"zzz\"\n[[managed_units]]\nunit = \"b\"\nvram_match = \"runner\"\n[[managed_units]]\nunit = \"c\"\n",
    )
    .unwrap();
    let mut s = fresh();
    s.gpu_vram_used_mb = 11;
    let p = |name: &str, mb: u64, unit: Option<&str>| GpuGraphicsProc {
        pid: 1,
        name: name.into(),
        vram_mb: mb,
        owning_unit: unit.map(str::to_string),
    };
    let reading = |running: Option<bool>| UnitReading {
        running,
        models: vec!["m".into()],
    };
    let sub = SubstateReading {
        units: vec![reading(Some(true)), reading(Some(true)), reading(None)],
        compute: Some(vec![
            p("python", 100, Some("a.service")),
            p("/x/RUNNER", 7, None),
        ]),
        memory: None,
        presence: Presence::default(),
    };
    assert!(substate_fits(&cfg, &sub));
    let full = |running: Option<bool>| SubstateReading {
        units: vec![reading(running), reading(None), reading(None)],
        compute: Some(vec![
            p("a", u64::MAX, Some("a.service")),
            p("b", 1, Some("a.service")),
        ]),
        ..sub.clone()
    };
    assert!(!substate_fits(&cfg, &full(Some(true))));
    assert!(substate_fits(&cfg, &full(Some(false))));
    refresh_substate(&mut s, &cfg, sub.clone());
    assert_eq!(s.units[0].vram_mb, Some(100));
    assert_eq!(s.units[1].vram_mb, Some(7));
    assert_eq!(s.units[2].vram_mb, None);
    assert!(s.units[2].models.is_empty());
    assert_eq!(s.gpu_vram_used_mb, 11, "memory that was not read stays");
    let sub = SubstateReading {
        memory: Some(GpuMemory {
            used_mb: 3,
            total_mb: 4,
        }),
        ..sub
    };
    refresh_substate(&mut s, &cfg, sub);
    assert_eq!((s.gpu_vram_used_mb, s.gpu_vram_total_mb), (3, 4));
    assert!(wants_models(Some(true)));
    assert!(!wants_models(Some(false)));
    assert!(!wants_models(None));
}
