use gpu_arbiter::metrics::{bound_nanos, BUCKETS};
use gpu_arbiter::state::{
    civil_from_unix_secs, format_rfc3339, ArbiterState, Claim, DurationHistogram, EvictionStage,
    Metrics, PassTrigger, ReconcileTrigger, State, UnitStatus, UnixTime, VERSION,
};
use gpu_arbiter::units::EvictionMetricOutcome;

#[test]
fn claim_tokens() {
    assert_eq!(Claim::Steam("440".into()).token(), "steam:440");
    assert_eq!(Claim::Pattern("heroic".into()).token(), "pattern:heroic");
}

#[test]
fn resolve_follows_claims() {
    assert_eq!(ArbiterState::resolve_state(&[]), State::Available);
    assert_eq!(
        ArbiterState::resolve_state(&[Claim::Steam("440".into())]),
        State::Gaming
    );
}

fn at(secs: u64) -> UnixTime {
    UnixTime {
        secs: secs as i64,
        nanos: 0,
    }
}

#[test]
fn format_rfc3339_known_timestamps() {
    assert_eq!(format_rfc3339(at(0)), "1970-01-01T00:00:00Z");
    assert_eq!(
        format_rfc3339(at(20611 * 86_400 + 20 * 3600)),
        "2026-06-07T20:00:00Z"
    );
    assert_eq!(format_rfc3339(at(1_000_000_000)), "2001-09-09T01:46:40Z");
    assert_eq!(format_rfc3339(at(1_709_210_096)), "2024-02-29T12:34:56Z");
}

#[test]
fn format_rfc3339_drops_subsecond_and_clamps_pre_epoch() {
    let t = UnixTime {
        secs: 1,
        nanos: 500_000_000,
    };
    assert_eq!(format_rfc3339(t), "1970-01-01T00:00:01Z");
    let pre = UnixTime { secs: -10, nanos: 0 };
    assert_eq!(format_rfc3339(pre), "1970-01-01T00:00:00Z");
}

#[test]
fn ollama_alias_mirrors_named_unit_not_just_first() {
    let mut s = ArbiterState::new(at(0));
    s.units = vec![
        UnitStatus {
            unit: "vllm.service".into(),
            running: Some(true),
            models: vec![],
            vram_mb: Some(8000),
            held: false,
        },
        UnitStatus {
            unit: "ollama.service".into(),
            running: Some(true),
            models: vec!["qwen3:30b".into()],
            vram_mb: Some(21000),
            held: false,
        },
    ];
    let snap = s.snapshot();
    assert_eq!(snap.units.len(), 2);
    assert_eq!(snap.ollama.unit, "ollama.service");
    assert_eq!(snap.ollama.vram_mb, Some(21000));
    assert_eq!(snap.units[0].unit, "vllm.service");
}

#[test]
fn ollama_alias_falls_back_to_first_unit() {
    let mut s = ArbiterState::new(at(0));
    s.units = vec![UnitStatus {
        unit: "vllm.service".into(),
        running: Some(false),
        models: vec![],
        vram_mb: None,
        held: false,
    }];
    let snap = s.snapshot();
    assert_eq!(snap.ollama.unit, "vllm.service");
}

#[test]
fn set_state_resets_since_only_on_change() {
    let mut s = ArbiterState::new(at(0));
    let t0 = s.since;
    s.set_state(State::Available, at(5));
    assert_eq!(s.since, t0);
    s.set_state(State::Gaming, at(7));
    assert!(s.since.secs >= t0.secs);
    assert_eq!(s.since, at(7));
}

#[test]
fn record_eviction_accumulates_per_unit_per_outcome() {
    let mut m = Metrics::default();
    m.record_eviction("ollama.service", EvictionMetricOutcome::Graceful);
    m.record_eviction("ollama.service", EvictionMetricOutcome::Graceful);
    m.record_eviction("ollama.service", EvictionMetricOutcome::Sigkill);
    m.record_eviction("vllm.service", EvictionMetricOutcome::Error);

    let ollama = m.evictions.get("ollama.service").unwrap();
    assert_eq!(ollama.graceful, 2);
    assert_eq!(ollama.sigkill, 1);
    assert_eq!(ollama.error, 0);
    let vllm = m.evictions.get("vllm.service").unwrap();
    assert_eq!(vllm.error, 1);
}

#[test]
fn histogram_buckets_are_cumulative() {
    let mut h = DurationHistogram::default();
    h.observe(50_000_000);
    h.observe(400_000_000);
    h.observe(2_500_000_000);

    let idx = |b: u64| {
        (0..BUCKETS)
            .position(|i| bound_nanos(i) == b)
            .expect("bucket bound")
    };
    assert_eq!(h.buckets[idx(100_000_000)], 1, "0.05 only");
    assert_eq!(h.buckets[idx(500_000_000)], 2, "0.05 + 0.4");
    assert_eq!(h.buckets[idx(1_000_000_000)], 2, "still 0.05 + 0.4");
    assert_eq!(h.buckets[idx(3_000_000_000)], 3, "all three");
    assert_eq!(h.count, 3);
    assert_eq!(h.sum_nanos, 2_950_000_000);
}

#[test]
fn histogram_counts_an_observation_above_every_bound() {
    let mut h = DurationHistogram::default();
    h.observe(120_000_000_000);
    assert_eq!(h.count, 1);
    assert!(
        h.buckets.iter().all(|c| *c == 0),
        "a 120s observation must not land in any finite bucket"
    );
    assert_eq!(h.sum_nanos, 120_000_000_000);
}

#[test]
fn record_eviction_duration_keys_by_unit_and_stage() {
    let mut m = Metrics::default();
    m.record_eviction_duration("asr-runner", EvictionStage::Yield, 400_000_000);
    m.record_eviction_duration("asr-runner", EvictionStage::Total, 450_000_000);
    m.record_eviction_duration("ollama", EvictionStage::Stop, 1_200_000_000);

    let asr = m.eviction_durations.get("asr-runner").unwrap();
    let ollama = m.eviction_durations.get("ollama").unwrap();
    assert_eq!(asr.stage(EvictionStage::Yield).unwrap().count, 1);
    assert_eq!(asr.stage(EvictionStage::Total).unwrap().count, 1);
    assert_eq!(ollama.stage(EvictionStage::Stop).unwrap().count, 1);
    let series = [asr, ollama]
        .iter()
        .flat_map(|s| [s.yields, s.stops, s.totals])
        .filter(|h| h.is_some())
        .count();
    assert_eq!(series, 3);
    assert_eq!(m.eviction_durations.entries.len(), 2);
}

#[test]
fn record_eviction_counts_yielded_separately() {
    let mut m = Metrics::default();
    m.record_eviction("asr-runner", EvictionMetricOutcome::Yielded);
    m.record_eviction("asr-runner", EvictionMetricOutcome::Yielded);
    m.record_eviction("asr-runner", EvictionMetricOutcome::Graceful);
    let c = m.evictions.get("asr-runner").unwrap();
    assert_eq!(c.yielded, 2);
    assert_eq!(c.graceful, 1);
    assert_eq!(c.sigkill, 0);
}

#[test]
fn record_unit_restart_accumulates_per_unit() {
    let mut m = Metrics::default();
    m.record_unit_restart("ollama.service");
    m.record_unit_restart("ollama.service");
    m.record_unit_restart("vllm.service");
    assert_eq!(m.unit_restarts.get("ollama.service").unwrap(), 2);
    assert_eq!(m.unit_restarts.get("vllm.service").unwrap(), 1);
}

#[test]
fn record_reconcile_pass_buckets_by_trigger() {
    let mut m = Metrics::default();
    m.record_reconcile_pass(PassTrigger::ProcEvent);
    m.record_reconcile_pass(PassTrigger::ProcEvent);
    m.record_reconcile_pass(PassTrigger::Timer);
    m.record_reconcile_pass(PassTrigger::Manual);
    m.record_reconcile_pass(PassTrigger::Startup);
    assert_eq!(m.reconcile_passes.proc_event, 2);
    assert_eq!(m.reconcile_passes.timer, 1);
    assert_eq!(m.reconcile_passes.manual, 1);
    assert_eq!(m.reconcile_passes.startup, 1);
}

#[test]
fn reconcile_trigger_pass_bucket_mapping() {
    assert_eq!(
        ReconcileTrigger::ProcEvent.pass_trigger(),
        PassTrigger::ProcEvent
    );
    assert_eq!(ReconcileTrigger::Timer.pass_trigger(), PassTrigger::Timer);
    assert_eq!(
        ReconcileTrigger::Startup.pass_trigger(),
        PassTrigger::Startup
    );
    assert_eq!(
        ReconcileTrigger::ManualStart {
            unit: "x".to_string()
        }
        .pass_trigger(),
        PassTrigger::Manual
    );
    assert_eq!(
        ReconcileTrigger::ManualStop {
            unit: "x".to_string()
        }
        .pass_trigger(),
        PassTrigger::Manual
    );
}

#[test]
fn pass_trigger_labels() {
    assert_eq!(PassTrigger::ProcEvent.label(), "proc_event");
    assert_eq!(PassTrigger::Timer.label(), "timer");
    assert_eq!(PassTrigger::Manual.label(), "manual");
    assert_eq!(PassTrigger::Startup.label(), "startup");
}

#[test]
fn reconcile_trigger_label_covers_startup() {
    assert_eq!(ReconcileTrigger::Startup.label(), "startup");
}

#[test]
fn vram_claims_have_a_token_of_their_own() {
    assert_eq!(Claim::Gpu(-7).token(), "gpu:-7");
}

#[test]
fn snapshot_shows_the_state() {
    let mut s = ArbiterState::new(at(20611 * 86_400 + 20 * 3600));
    s.claims = vec![Claim::Steam("440".into())];
    s.state = State::Gaming;
    s.gpu_vram_used_mb = 21500;
    s.gpu_vram_total_mb = 32768;
    s.degraded = true;
    s.presence.devices = 4;
    let snap = s.snapshot();
    assert_eq!(snap.version, VERSION);
    assert_eq!(snap.state, State::Gaming);
    assert_eq!(snap.claims, vec!["steam:440"]);
    assert_eq!(snap.since, "2026-06-07T20:00:00Z");
    assert!(snap.units.is_empty());
    assert_eq!(snap.ollama, UnitStatus::default());
    assert_eq!(snap.gpu_vram_used_mb, 21500);
    assert_eq!(snap.gpu_vram_total_mb, 32768);
    assert_eq!(snap.physical_input_devices, 4);
    assert!(snap.degraded);
}

#[test]
fn dates_at_the_edges_of_the_calendar() {
    assert_eq!(civil_from_unix_secs(951_782_400), (2000, 2, 29, 0, 0, 0));
    assert_eq!(civil_from_unix_secs(951_868_800), (2000, 3, 1, 0, 0, 0));
    assert_eq!(civil_from_unix_secs(4_107_542_399), (2100, 2, 28, 23, 59, 59));
    assert_eq!(civil_from_unix_secs(4_107_542_400), (2100, 3, 1, 0, 0, 0));
    assert_eq!(civil_from_unix_secs(1_735_689_599), (2024, 12, 31, 23, 59, 59));
    assert_eq!(format_rfc3339(at(253_402_300_800)), "10000-01-01T00:00:00Z");
}

#[test]
fn states_have_their_words() {
    assert_eq!(State::Gaming.label(), "gaming");
    assert_eq!(State::Available.label(), "available");
    assert_eq!(State::Evicting.label(), "evicting");
    assert_eq!(
        ReconcileTrigger::ManualStart { unit: "x".into() }.label(),
        "manual_start"
    );
    assert_eq!(
        ReconcileTrigger::ManualStop { unit: "x".into() }.label(),
        "manual_stop"
    );
    assert_eq!(EvictionStage::Yield.label(), "yield");
    assert_eq!(EvictionStage::Stop.label(), "stop");
    assert_eq!(EvictionStage::Total.label(), "total");
}

#[test]
fn counters_at_their_limit_have_no_room() {
    let mut m = Metrics::default();
    assert!(m.has_room());
    m.record_unit_restart("a");
    assert!(m.has_room());
    m.unit_restarts.set("a", u64::MAX);
    assert!(!m.has_room());
    let mut m = Metrics::default();
    m.reconcile_passes.timer = u64::MAX;
    assert!(!m.has_room());
}

#[test]
fn counted_units_stand_in_the_order_of_their_names() {
    let mut m = Metrics::default();
    for unit in ["b", "c", "a", "B", "ä", "b"] {
        m.record_unit_restart(unit);
    }
    let names: Vec<&str> = m.unit_restarts.entries.iter().map(|e| e.0.as_str()).collect();
    assert_eq!(names, vec!["B", "a", "b", "c", "ä"]);
    assert_eq!(m.unit_restarts.get("b"), Some(2));
}

#[test]
fn snapshot_has_a_real_timestamp() {
    let mut s = ArbiterState::new(at(0));
    s.since = at(20611 * 86_400 + 20 * 3600);
    s.claims = vec![Claim::Steam("440".into())];
    s.state = State::Gaming;
    let snap = s.snapshot();
    assert_eq!(snap.version, VERSION);
    assert_eq!(snap.state.label(), "gaming");
    assert_eq!(snap.claims, vec!["steam:440"]);
    assert_eq!(snap.since, "2026-06-07T20:00:00Z");
    // No units observed: the list is empty and the alias is the default.
    assert!(snap.units.is_empty());
    assert_eq!(snap.ollama.vram_mb, None);
    assert_eq!(snap.ollama, UnitStatus::default());
}

#[test]
fn snapshot_of_an_eviction_has_its_vram() {
    let mut s = ArbiterState::new(at(0));
    s.state = State::Evicting;
    s.units = vec![UnitStatus {
        unit: "ollama.service".into(),
        running: Some(true),
        models: vec![],
        vram_mb: Some(21000),
        held: true,
    }];
    s.gpu_vram_used_mb = 21500;
    s.gpu_vram_total_mb = 32768;
    let snap = s.snapshot();
    assert_eq!(snap.state.label(), "evicting");
    assert_eq!(snap.units[0].vram_mb, Some(21000));
    assert_eq!(snap.gpu_vram_used_mb, 21500);
    assert_eq!(snap.gpu_vram_total_mb, 32768);
    assert!(snap.units[0].held);
    assert_eq!(snap.ollama, snap.units[0]);
}

#[test]
fn unknown_run_state_stays_unknown_in_the_snapshot() {
    let mut s = ArbiterState::new(at(0));
    s.units = vec![UnitStatus {
        unit: "ollama.service".into(),
        running: None,
        models: vec![],
        vram_mb: None,
        held: false,
    }];
    assert_eq!(s.snapshot().units[0].running, None);
}
