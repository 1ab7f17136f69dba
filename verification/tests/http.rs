use gpu_arbiter::config::Config;
use gpu_arbiter::addr::IpAddr;
use gpu_arbiter::http::{
    esc, guard_loopback, guard_unit, is_localhost, is_managed, manual_reply, parent_dir_is_loose,
    socket_is_live, staging_dir_name, HttpError, ManualOutcome, ManualVerb, SocketProbe,
};
use gpu_arbiter::metrics::EvictionStage;
use gpu_arbiter::state::{
    ManualActionError, Metrics, PassTrigger, State, StatusSnapshot, UnitStatus,
};
use gpu_arbiter::units::{
    hook_failures, record_hook_failure, EvictionMetricOutcome, Hook, HookFailure, HookFailures,
};

fn render_metrics(
    snap: &StatusSnapshot,
    metrics: &Metrics,
    since_unix: i64,
    now_unix: i64,
    threshold_s: i64,
    dropped: u64,
) -> String {
    gpu_arbiter::http::render_metrics(
        snap,
        metrics,
        &Vec::new(),
        since_unix,
        now_unix,
        threshold_s,
        dropped,
    )
}

#[test]
fn is_managed_matches_resolved_units() {
    let cfg = Config::default();
    assert!(is_managed(&cfg, "ollama.service"));
    assert!(!is_managed(&cfg, "vllm.service"));

    let cfg = Config::from_toml(
        r#"
        [[managed_units]]
        unit = "ollama.service"
        [[managed_units]]
        unit = "vllm.service"
        "#,
    )
    .unwrap();
    assert!(is_managed(&cfg, "ollama.service"));
    assert!(is_managed(&cfg, "vllm.service"));
    assert!(!is_managed(&cfg, "sshd.service"));
}

#[test]
fn guard_unit_rejects_unmanaged_unit() {
    let cfg = Config::default();
    assert_eq!(
        guard_unit(&cfg, "sshd.service").map_err(|r| r.status),
        Err(404)
    );
    let managed = guard_unit(&cfg, "ollama.service").expect("ollama.service is managed");
    assert_eq!(cfg.resolved_units()[managed].unit, "ollama.service");
    assert_eq!(
        guard_unit(&cfg, "sshd.service").unwrap_err().body,
        "'sshd.service' is not a managed unit"
    );
}

#[test]
fn loopback_is_localhost() {
    assert!(is_localhost(IpAddr::V4([127, 0, 0, 1])));
    assert!(is_localhost(IpAddr::V6([0, 0, 0, 0, 0, 0, 0, 1])));
    assert!(is_localhost(IpAddr::V4([127, 9, 9, 9])));
    assert!(!is_localhost(IpAddr::V6([0, 0, 0, 0, 0, 0xffff, 0x7f00, 1])));
    assert!(!is_localhost(IpAddr::V6([0, 0, 0, 0, 0, 0, 0, 2])));
}

#[test]
fn lan_peer_is_not_localhost() {
    assert!(!is_localhost(IpAddr::V4([192, 168, 1, 100])));
}

#[test]
fn guard_loopback_rejects_lan_allows_loopback() {
    let lan = IpAddr::V4([192, 168, 1, 5]);
    assert_eq!(guard_loopback(lan).map_err(|r| r.status), Err(403));
    assert_eq!(
        guard_loopback(lan).unwrap_err().body,
        "unit controls are localhost-only"
    );
    let lo = IpAddr::V4([127, 0, 0, 1]);
    assert_eq!(guard_loopback(lo), Ok(()));
}

#[test]
fn render_metrics_gaming_snapshot() {
    let snap = StatusSnapshot {
        version: "1.2.3".into(),
        state: State::Gaming,
        claims: vec!["steam:440".into()],
        units: vec![UnitStatus {
            unit: "ollama.service".into(),
            running: Some(false),
            models: vec![],
            vram_mb: None,
            held: false,
        }],
        ollama: UnitStatus::default(),
        gpu_vram_used_mb: 21500,
        gpu_vram_total_mb: 32768,
        since: "2023-11-14T22:13:20Z".into(),
        local_input_last_unix: 1_699_999_970,
        physical_input_devices: 2,
        input_monitor_up: true,
        degraded: false,
    };
    let out = render_metrics(
        &snap,
        &Metrics::default(),
        1_700_000_000,
        1_700_000_000,
        600,
        0,
    );

    assert!(out.contains("gpu_arbiter_up 1"));
    assert!(out.contains("gpu_arbiter_build_info{version=\"1.2.3\"} 1"));
    assert!(out.contains("gpu_arbiter_state{state=\"gaming\"} 1"));
    assert!(out.contains("gpu_arbiter_state{state=\"available\"} 0"));
    assert!(out.contains("gpu_arbiter_state{state=\"evicting\"} 0"));
    assert!(out.contains("gpu_arbiter_gaming 1"));
    assert!(out.contains("gpu_arbiter_state_since_seconds 1700000000"));
    assert!(out.contains("gpu_arbiter_claims 1"));
    assert!(out.contains("gpu_arbiter_claim{token=\"steam:440\",kind=\"steam\",id=\"440\"} 1"));
    assert!(out.contains("gpu_arbiter_unit_running{unit=\"ollama.service\"} 0"));
    assert!(out.contains("gpu_arbiter_vram_used_mib 21500"));
    assert!(out.contains("gpu_arbiter_vram_total_mib 32768"));
    assert!(!out.contains("gpu_arbiter_unit_vram_mib{unit=\"ollama.service\"}"));
    assert!(out.contains("gpu_arbiter_local_present 1"));
    assert!(out.contains("gpu_arbiter_local_input_last_seconds 1699999970"));
    assert!(out.contains("gpu_arbiter_physical_input_devices 2"));
    assert!(out.contains("gpu_arbiter_input_monitor_up 1"));
}

#[test]
fn render_metrics_available_snapshot() {
    let snap = StatusSnapshot {
        version: "1.2.3".into(),
        state: State::Available,
        claims: vec![],
        units: vec![UnitStatus {
            unit: "ollama.service".into(),
            running: Some(true),
            models: vec!["qwen3:30b".into()],
            vram_mb: Some(21000),
            held: false,
        }],
        ollama: UnitStatus::default(),
        gpu_vram_used_mb: 21000,
        gpu_vram_total_mb: 32768,
        since: "2023-11-14T22:13:20Z".into(),
        local_input_last_unix: 1_699_996_400,
        physical_input_devices: 3,
        input_monitor_up: true,
        degraded: false,
    };
    let out = render_metrics(
        &snap,
        &Metrics::default(),
        1_700_000_000,
        1_700_000_000,
        600,
        0,
    );

    assert!(out.contains("gpu_arbiter_gaming 0"));
    assert!(out.contains("gpu_arbiter_state{state=\"available\"} 1"));
    assert!(out.contains("gpu_arbiter_claims 0"));
    assert!(!out.contains("gpu_arbiter_claim{"));
    assert!(out.contains("gpu_arbiter_unit_running{unit=\"ollama.service\"} 1"));
    assert!(out.contains("gpu_arbiter_unit_vram_mib{unit=\"ollama.service\"} 21000"));
    assert!(out.contains("gpu_arbiter_local_present 0"));
    assert!(out.contains("gpu_arbiter_input_monitor_up 1"));
    assert!(out.contains("gpu_arbiter_physical_input_devices 3"));
}

#[test]
fn render_metrics_monitor_down_is_unknown() {
    let snap = StatusSnapshot {
        version: "1.2.3".into(),
        state: State::Available,
        claims: vec![],
        units: vec![],
        ollama: UnitStatus::default(),
        gpu_vram_used_mb: 0,
        gpu_vram_total_mb: 0,
        since: "2023-11-14T22:13:20Z".into(),
        local_input_last_unix: 1_699_999_990,
        physical_input_devices: 0,
        input_monitor_up: false,
        degraded: false,
    };
    let out = render_metrics(
        &snap,
        &Metrics::default(),
        1_700_000_000,
        1_700_000_000,
        600,
        0,
    );
    assert!(out.contains("gpu_arbiter_local_present 0"));
    assert!(out.contains("gpu_arbiter_input_monitor_up 0"));
    assert!(out.contains("gpu_arbiter_physical_input_devices 0"));
}

#[test]
fn render_metrics_unit_held_reflects_per_unit_hold() {
    let snap = StatusSnapshot {
        version: "1.2.3".into(),
        state: State::Available,
        claims: vec![],
        units: vec![
            UnitStatus {
                unit: "ollama.service".into(),
                running: Some(false),
                models: vec![],
                vram_mb: None,
                held: true,
            },
            UnitStatus {
                unit: "vllm.service".into(),
                running: Some(true),
                models: vec![],
                vram_mb: None,
                held: false,
            },
        ],
        ollama: UnitStatus::default(),
        gpu_vram_used_mb: 0,
        gpu_vram_total_mb: 0,
        since: "1970-01-01T00:00:00Z".into(),
        local_input_last_unix: 0,
        physical_input_devices: 0,
        input_monitor_up: true,
        degraded: false,
    };
    let out = render_metrics(&snap, &Metrics::default(), 0, 0, 600, 0);
    assert!(out.contains("# TYPE gpu_arbiter_unit_held gauge"));
    assert!(out.contains("gpu_arbiter_unit_held{unit=\"ollama.service\"} 1"));
    assert!(out.contains("gpu_arbiter_unit_held{unit=\"vllm.service\"} 0"));
}

#[test]
fn render_metrics_degraded_reflects_snapshot_flag() {
    let mut snap = empty_snapshot();
    snap.degraded = true;
    let out = render_metrics(&snap, &Metrics::default(), 0, 0, 600, 0);
    assert!(out.contains("# TYPE gpu_arbiter_degraded gauge"));
    assert!(out.contains("gpu_arbiter_degraded 1"));

    snap.degraded = false;
    let out = render_metrics(&snap, &Metrics::default(), 0, 0, 600, 0);
    assert!(out.contains("gpu_arbiter_degraded 0"));
}

#[test]
fn render_metrics_is_well_formed() {
    let snap = StatusSnapshot {
        version: "0.0.0".into(),
        state: State::Evicting,
        claims: vec!["pattern:heroic".into()],
        units: vec![],
        ollama: UnitStatus::default(),
        gpu_vram_used_mb: 0,
        gpu_vram_total_mb: 0,
        since: "1970-01-01T00:00:00Z".into(),
        local_input_last_unix: 0,
        physical_input_devices: 1,
        input_monitor_up: true,
        degraded: false,
    };
    let mut metrics = Metrics::default();
    metrics.record_eviction(
        "ollama.service",
        EvictionMetricOutcome::Graceful,
    );
    metrics.record_unit_restart("ollama.service");
    metrics.record_reconcile_pass(PassTrigger::Timer);
    let out = render_metrics(&snap, &metrics, 1_700_000_000, 1_700_000_000, 600, 3);
    for line in out.lines().filter(|l| !l.is_empty() && !l.starts_with('#')) {
        let (name, value) = line.rsplit_once(' ').expect("sample line has a value");
        assert!(
            name.starts_with("gpu_arbiter_"),
            "unexpected metric: {name}"
        );
        assert!(
            value.parse::<f64>().is_ok(),
            "non-numeric value in line: {line}"
        );
    }
    assert!(out.contains("gpu_arbiter_state{state=\"evicting\"} 1"));
    assert!(out.contains(
        "gpu_arbiter_claim{token=\"pattern:heroic\",kind=\"pattern\",id=\"heroic\"} 1"
    ));
}

#[test]
fn render_metrics_exposes_hook_failures() {
    let unit = "tst-render-hookfail.service";
    let mut counts = HookFailures::new();
    record_hook_failure(&mut counts, unit, Hook::Busy, HookFailure::NonZero);

    let snap = StatusSnapshot {
        version: "0.0.0".into(),
        state: State::Available,
        claims: vec![],
        units: vec![],
        ollama: UnitStatus::default(),
        gpu_vram_used_mb: 0,
        gpu_vram_total_mb: 0,
        since: "1970-01-01T00:00:00Z".into(),
        local_input_last_unix: 0,
        physical_input_devices: 0,
        input_monitor_up: false,
        degraded: false,
    };
    let out = gpu_arbiter::http::render_metrics(
        &snap,
        &Metrics::default(),
        &hook_failures(&counts),
        1_700_000_000,
        1_700_000_000,
        600,
        0,
    );

    assert!(
        out.contains("# TYPE gpu_arbiter_hook_failures_total counter"),
        "missing TYPE header:\n{out}"
    );
    let expected = format!(
        "gpu_arbiter_hook_failures_total{{unit=\"{unit}\",hook=\"busy\",outcome=\"nonzero\"}} 1"
    );
    assert!(out.contains(&expected), "missing sample {expected}:\n{out}");
}

#[test]
fn esc_escapes_quote_and_backslash() {
    assert_eq!(esc("steam:440"), "steam:440");
    assert_eq!(esc(r#"a"b\c"#), r#"a\"b\\c"#);
}

fn empty_snapshot() -> StatusSnapshot {
    StatusSnapshot {
        version: "0.0.0".into(),
        state: State::Available,
        claims: vec![],
        units: vec![],
        ollama: UnitStatus::default(),
        gpu_vram_used_mb: 0,
        gpu_vram_total_mb: 0,
        since: "1970-01-01T00:00:00Z".into(),
        local_input_last_unix: 0,
        physical_input_devices: 0,
        input_monitor_up: true,
        degraded: false,
    }
}

#[test]
fn render_metrics_declares_counter_type_for_new_metrics() {
    let out = render_metrics(&empty_snapshot(), &Metrics::default(), 0, 0, 600, 0);
    for name in [
        "gpu_arbiter_evictions_total",
        "gpu_arbiter_unit_restarts_total",
        "gpu_arbiter_proc_events_dropped_total",
        "gpu_arbiter_reconcile_passes_total",
    ] {
        assert!(
            out.contains(&format!("# TYPE {name} counter")),
            "missing `# TYPE {name} counter` in:\n{out}"
        );
    }
    assert!(out.contains("# TYPE gpu_arbiter_up gauge"));
    assert!(out.contains("# TYPE gpu_arbiter_state gauge"));
}

#[test]
fn render_metrics_evictions_total_per_unit_per_outcome() {
    let mut metrics = Metrics::default();
    metrics.record_eviction("ollama.service", EvictionMetricOutcome::Graceful);
    metrics.record_eviction("ollama.service", EvictionMetricOutcome::Graceful);
    metrics.record_eviction("ollama.service", EvictionMetricOutcome::Sigkill);
    metrics.record_eviction("vllm.service", EvictionMetricOutcome::Error);
    let out = render_metrics(&empty_snapshot(), &metrics, 0, 0, 600, 0);

    assert!(out.contains(
        "gpu_arbiter_evictions_total{unit=\"ollama.service\",outcome=\"graceful\"} 2"
    ));
    assert!(out.contains(
        "gpu_arbiter_evictions_total{unit=\"ollama.service\",outcome=\"sigkill\"} 1"
    ));
    assert!(
        out.contains(
            "gpu_arbiter_evictions_total{unit=\"ollama.service\",outcome=\"error\"} 0"
        )
    );
    assert!(
        out.contains("gpu_arbiter_evictions_total{unit=\"vllm.service\",outcome=\"error\"} 1")
    );
    assert!(!out.contains("unit=\"never-evicted.service\""));
}

#[test]
fn render_metrics_unit_restarts_total_per_unit() {
    let mut metrics = Metrics::default();
    metrics.record_unit_restart("ollama.service");
    metrics.record_unit_restart("ollama.service");
    metrics.record_unit_restart("vllm.service");
    let out = render_metrics(&empty_snapshot(), &metrics, 0, 0, 600, 0);
    assert!(out.contains("gpu_arbiter_unit_restarts_total{unit=\"ollama.service\"} 2"));
    assert!(out.contains("gpu_arbiter_unit_restarts_total{unit=\"vllm.service\"} 1"));
}

#[test]
fn render_metrics_proc_events_dropped_total_is_the_passed_in_value() {
    let out = render_metrics(&empty_snapshot(), &Metrics::default(), 0, 0, 600, 42);
    assert!(out.contains("gpu_arbiter_proc_events_dropped_total 42"));
}

#[test]
fn render_metrics_reconcile_passes_total_all_four_triggers() {
    let mut metrics = Metrics::default();
    metrics.record_reconcile_pass(PassTrigger::ProcEvent);
    metrics.record_reconcile_pass(PassTrigger::ProcEvent);
    metrics.record_reconcile_pass(PassTrigger::Timer);
    metrics.record_reconcile_pass(PassTrigger::Manual);
    metrics.record_reconcile_pass(PassTrigger::Startup);
    let out = render_metrics(&empty_snapshot(), &metrics, 0, 0, 600, 0);
    assert!(out.contains("gpu_arbiter_reconcile_passes_total{trigger=\"proc_event\"} 2"));
    assert!(out.contains("gpu_arbiter_reconcile_passes_total{trigger=\"timer\"} 1"));
    assert!(out.contains("gpu_arbiter_reconcile_passes_total{trigger=\"manual\"} 1"));
    assert!(out.contains("gpu_arbiter_reconcile_passes_total{trigger=\"startup\"} 1"));
}

#[test]
fn render_metrics_counters_still_render_at_zero_with_no_activity() {
    let out = render_metrics(&empty_snapshot(), &Metrics::default(), 0, 0, 600, 0);
    assert!(out.contains("gpu_arbiter_proc_events_dropped_total 0"));
    assert!(out.contains("gpu_arbiter_reconcile_passes_total{trigger=\"proc_event\"} 0"));
    assert!(out.contains("gpu_arbiter_reconcile_passes_total{trigger=\"timer\"} 0"));
    assert!(out.contains("gpu_arbiter_reconcile_passes_total{trigger=\"manual\"} 0"));
    assert!(out.contains("gpu_arbiter_reconcile_passes_total{trigger=\"startup\"} 0"));
    assert!(!out.contains("gpu_arbiter_evictions_total{"));
    assert!(!out.contains("gpu_arbiter_unit_restarts_total{"));
    assert!(!out.contains("gpu_arbiter_eviction_duration_seconds_bucket{"));
}

#[test]
fn render_metrics_eviction_duration_histogram_is_well_formed() {
    let mut metrics = Metrics::default();
    metrics.record_eviction_duration("asr-runner", EvictionStage::Yield, 400_000_000);
    metrics.record_eviction_duration("asr-runner", EvictionStage::Total, 450_000_000);

    let out = render_metrics(&empty_snapshot(), &metrics, 0, 0, 600, 0);

    assert!(out.contains("# TYPE gpu_arbiter_eviction_duration_seconds histogram"));
    assert!(out.contains(
        "gpu_arbiter_eviction_duration_seconds_bucket{unit=\"asr-runner\",stage=\"yield\",le=\"0.5\"} 1"
    ));
    assert!(out.contains(
        "gpu_arbiter_eviction_duration_seconds_bucket{unit=\"asr-runner\",stage=\"yield\",le=\"0.25\"} 0"
    ));
    assert!(out.contains(
        "gpu_arbiter_eviction_duration_seconds_bucket{unit=\"asr-runner\",stage=\"yield\",le=\"+Inf\"} 1"
    ));
    assert!(out.contains(
        "gpu_arbiter_eviction_duration_seconds_count{unit=\"asr-runner\",stage=\"yield\"} 1"
    ));
    assert!(out.contains(
        "gpu_arbiter_eviction_duration_seconds_sum{unit=\"asr-runner\",stage=\"yield\"}"
    ));
    assert!(out.contains(
        "gpu_arbiter_eviction_duration_seconds_count{unit=\"asr-runner\",stage=\"total\"} 1"
    ));
}

#[test]
fn render_metrics_exposes_the_yielded_eviction_outcome() {
    let mut metrics = Metrics::default();
    metrics.record_eviction("asr-runner", EvictionMetricOutcome::Yielded);
    let out = render_metrics(&empty_snapshot(), &metrics, 0, 0, 600, 0);
    assert!(
        out.contains("gpu_arbiter_evictions_total{unit=\"asr-runner\",outcome=\"yielded\"} 1")
    );
    assert!(
        out.contains("gpu_arbiter_evictions_total{unit=\"asr-runner\",outcome=\"sigkill\"} 0")
    );
}

#[test]
fn page_begins_and_ends_as_stated() {
    let mut m = Metrics::default();
    m.record_reconcile_pass(PassTrigger::Startup);
    let mut snap = empty_snapshot();
    snap.version = "9\"9".into();
    let out = render_metrics(&snap, &m, -5, 0, 600, 0);
    assert!(out.starts_with(
        "# HELP gpu_arbiter_up 1 if the gpu-arbiter daemon is serving.\n# TYPE gpu_arbiter_up gauge\ngpu_arbiter_up 1\n# HELP gpu_arbiter_build_info Build metadata; constant 1, version in the label.\n# TYPE gpu_arbiter_build_info gauge\ngpu_arbiter_build_info{version=\"9\\\"9\"} 1\n"
    ));
    assert!(out.contains("\ngpu_arbiter_state_since_seconds -5\n"));
    assert!(out.ends_with(
        "gpu_arbiter_reconcile_passes_total{trigger=\"manual\"} 0\ngpu_arbiter_reconcile_passes_total{trigger=\"startup\"} 1\n"
    ));
}

#[test]
fn every_metric_is_announced_once() {
    let out = render_metrics(&empty_snapshot(), &Metrics::default(), 0, 0, 600, 0);
    let mut names: Vec<&str> = out
        .lines()
        .filter(|l| l.starts_with("# TYPE "))
        .map(|l| l.split(' ').nth(2).unwrap())
        .collect();
    let n = names.len();
    names.sort();
    names.dedup();
    assert_eq!(names.len(), n);
    assert_eq!(n, 23);
}

#[test]
fn units_are_written_in_the_order_of_their_names() {
    let mut m = Metrics::default();
    m.record_eviction("b", EvictionMetricOutcome::Graceful);
    m.record_eviction("a", EvictionMetricOutcome::Graceful);
    m.record_eviction_duration("b", EvictionStage::Total, 2_500_000_000);
    let out = render_metrics(&empty_snapshot(), &m, 0, 0, 600, 0);
    let a = out.find("gpu_arbiter_evictions_total{unit=\"a\"").unwrap();
    let b = out.find("gpu_arbiter_evictions_total{unit=\"b\"").unwrap();
    assert!(a < b);
    assert!(out.contains(
        "gpu_arbiter_eviction_duration_seconds_sum{unit=\"b\",stage=\"total\"} 2.5\n"
    ));
    for (le, n) in [("0.1", 0), ("0.25", 0), ("0.5", 0), ("1", 0), ("2", 0), ("3", 1), ("5", 1), ("10", 1), ("30", 1)] {
        let line = format!(
            "gpu_arbiter_eviction_duration_seconds_bucket{{unit=\"b\",stage=\"total\",le=\"{le}\"}} {n}\n"
        );
        assert!(out.contains(&line), "missing {line}");
    }
}

#[test]
fn claim_without_a_colon_is_all_kind() {
    let mut snap = empty_snapshot();
    snap.claims = vec!["odd".into(), "a:b:c".into()];
    let out = render_metrics(&snap, &Metrics::default(), 0, 0, 600, 0);
    assert!(out.contains("gpu_arbiter_claim{token=\"odd\",kind=\"odd\",id=\"\"} 1"));
    assert!(out.contains("gpu_arbiter_claim{token=\"a:b:c\",kind=\"a\",id=\"b:c\"} 1"));
}

#[test]
fn newlines_are_escaped() {
    assert_eq!(esc("a\nb"), "a\\nb");
}

#[test]
fn operators_are_answered() {
    let r = manual_reply("u", ManualVerb::Start, ManualOutcome::Answered(Ok(())));
    assert_eq!((r.status, r.body.as_str()), (200, "u start requested"));
    let r = manual_reply(
        "u",
        ManualVerb::Start,
        ManualOutcome::Answered(Err(ManualActionError::GpuHeldByGame)),
    );
    assert_eq!(r.status, 409);
    assert_eq!(
        r.body,
        "u start rejected: a game currently holds the GPU (state gaming/evicting); retry once the GPU is available"
    );
    let r = manual_reply(
        "u",
        ManualVerb::Stop,
        ManualOutcome::Answered(Err(ManualActionError::Failed)),
    );
    assert_eq!((r.status, r.body.as_str()), (500, "u stop failed (see daemon logs)"));
    let r = manual_reply("u", ManualVerb::Stop, ManualOutcome::Unanswered);
    assert_eq!(r.status, 500);
}

#[test]
fn only_a_stale_socket_is_not_live() {
    assert!(socket_is_live(SocketProbe::Connected));
    assert!(socket_is_live(SocketProbe::OtherError));
    assert!(socket_is_live(SocketProbe::TimedOut));
    assert!(!socket_is_live(SocketProbe::NotFound));
    assert!(!socket_is_live(SocketProbe::Refused));
}

#[test]
fn socket_directories_are_judged() {
    assert!(!parent_dir_is_loose(0o700, 0, 0));
    assert!(parent_dir_is_loose(0o750, 0, 0));
    assert!(parent_dir_is_loose(0o701, 0, 0));
    assert!(parent_dir_is_loose(0o700, 1000, 0));
    assert_eq!(staging_dir_name(42, 7), ".gpu-arbiter-bind-42-7");
    assert_eq!(
        HttpError::SocketInUse { path: "/s".into() }.message(),
        "control socket /s is already in use by a live process (refusing to steal it — is another gpu-arbiter instance running?)"
    );
    assert_eq!(HttpError::Io("x".into()).message(), "HTTP server: x");
}
