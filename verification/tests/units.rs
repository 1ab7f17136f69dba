use gpu_arbiter::cli::check_config;
use gpu_arbiter::config::{Config, ConfigFile, Introspection, ManagedUnit};
use gpu_arbiter::gpu::{GpuBackend, GpuMemory};
use gpu_arbiter::units::{
    attribution_is_trustworthy, command_for, control_result, eviction_metric_outcome,
    eviction_step, hook_command, hook_failures, hook_run, parse_model_lines, parse_ollama_ps,
    record_hook_failure, resolve_unit, running_result, stderr_excerpt, vram_is_free,
    EvictionMetricOutcome, EvictionOutcome, EvictionStep, Hook, HookFailure, HookFailures,
    HookRun, RunOutcome, Supervisor, UnitError, UnitVramReading, Verb,
};

#[test]
fn stderr_excerpt_takes_first_nonempty_line() {
    assert_eq!(stderr_excerpt(b"\n\n  boom  \nsecond line\n"), "boom");
}

#[test]
fn stderr_excerpt_handles_empty_and_invalid_utf8() {
    assert_eq!(stderr_excerpt(b""), "<no stderr>");
    assert_eq!(stderr_excerpt(b"   \n  \n"), "<no stderr>");
    assert!(!stderr_excerpt(&[0xff, 0xfe, b'h', b'i']).is_empty());
}

#[test]
fn stderr_excerpt_truncates_a_flood() {
    let flood = "x".repeat(10_000);
    let got = stderr_excerpt(flood.as_bytes());
    assert!(got.ends_with("… (truncated)"), "got: {got}");
    assert!(
        got.chars().count() < 400,
        "excerpt not bounded: {}",
        got.chars().count()
    );
}

#[test]
fn hook_and_failure_labels_are_stable() {
    assert_eq!(Hook::Busy.label(), "busy");
    assert_eq!(Hook::Yield.label(), "yield");
    assert_eq!(Hook::Resume.label(), "resume");
    assert_eq!(HookFailure::NonZero.label(), "nonzero");
    assert_eq!(HookFailure::Unrunnable.label(), "unrunnable");
}

#[test]
fn hook_failures_accumulate_and_are_keyed_by_unit_hook_outcome() {
    let unit = "tst-hookcount-unit";
    let mut counts = HookFailures::new();
    let before = hook_failures(&counts)
        .into_iter()
        .filter(|((u, _, _), _)| u == unit)
        .count();
    assert_eq!(before, 0, "unit name must be unique to this test");

    record_hook_failure(&mut counts, unit, Hook::Busy, HookFailure::NonZero);
    record_hook_failure(&mut counts, unit, Hook::Busy, HookFailure::NonZero);
    record_hook_failure(&mut counts, unit, Hook::Resume, HookFailure::Unrunnable);

    let mine: Vec<_> = hook_failures(&counts)
        .into_iter()
        .filter(|((u, _, _), _)| u == unit)
        .collect();
    assert_eq!(mine.len(), 2, "distinct (hook,outcome) keys: {mine:?}");
    assert_eq!(mine[0].0 .1, Hook::Busy);
    assert_eq!(mine[0].1, 2, "same key must accumulate, not overwrite");
    assert_eq!(mine[1].0 .1, Hook::Resume);
    assert_eq!(mine[1].1, 1);
    assert_eq!(counts.count(unit, Hook::Busy, HookFailure::NonZero), 2);
    assert_eq!(counts.count(unit, Hook::Yield, HookFailure::NonZero), 0);
}

#[test]
fn units_vram_free_predicate() {
    let cfg = Config::default();
    assert!(vram_is_free(
        GpuMemory {
            used_mb: 500,
            total_mb: 32768
        },
        &cfg
    ));
    assert!(!vram_is_free(
        GpuMemory {
            used_mb: 21000,
            total_mb: 32768
        },
        &cfg
    ));
    assert!(!vram_is_free(
        GpuMemory {
            used_mb: 2000,
            total_mb: 32768
        },
        &cfg
    ));
}

fn mem(used: u64) -> GpuMemory {
    GpuMemory {
        used_mb: used,
        total_mb: 32768,
    }
}

fn fallback(used: u64) -> UnitVramReading {
    UnitVramReading::Fallback(Some(mem(used)))
}

#[test]
fn eviction_step_fallback_keeps_waiting_under_threshold_and_timeout() {
    let cfg = Config::default();
    assert_eq!(
        eviction_step(fallback(21000), 1_000_000_000, &cfg),
        EvictionStep::KeepWaiting
    );
}

#[test]
fn eviction_step_fallback_freed_when_vram_drains() {
    let cfg = Config::default();
    assert_eq!(
        eviction_step(fallback(500), 1_000_000_000, &cfg),
        EvictionStep::Freed
    );
}

#[test]
fn eviction_step_fallback_escalates_on_timeout() {
    let cfg = Config::default();
    assert_eq!(
        eviction_step(fallback(21000), 5_000_000_000, &cfg),
        EvictionStep::Escalate
    );
    assert_eq!(
        eviction_step(fallback(21000), 99_000_000_000, &cfg),
        EvictionStep::Escalate
    );
}

#[test]
fn eviction_step_fallback_freed_wins_over_timeout_on_last_tick() {
    let cfg = Config::default();
    assert_eq!(
        eviction_step(fallback(100), 10_000_000_000, &cfg),
        EvictionStep::Freed
    );
}

#[test]
fn eviction_step_unknown_memory_keeps_waiting_then_escalates() {
    let cfg = Config::default();
    assert_eq!(
        eviction_step(
            UnitVramReading::Fallback(None),
            1_000_000_000,
            &cfg
        ),
        EvictionStep::KeepWaiting
    );
    assert_eq!(
        eviction_step(
            UnitVramReading::Fallback(None),
            5_000_000_000,
            &cfg
        ),
        EvictionStep::Escalate
    );
}

#[test]
fn eviction_step_unavailable_never_reports_freed() {
    let cfg = Config::default();
    assert_eq!(
        eviction_step(UnitVramReading::Unavailable, 1_000_000_000, &cfg),
        EvictionStep::KeepWaiting
    );
    assert_eq!(
        eviction_step(UnitVramReading::Unavailable, 5_000_000_000, &cfg),
        EvictionStep::Escalate
    );
}

#[test]
fn eviction_step_unavailable_matches_unknown_memory_semantics() {
    let cfg = Config::default();
    for elapsed in [
        0,
        1_000_000_000,
        5_000_000_000,
    ] {
        assert_eq!(
            eviction_step(UnitVramReading::Unavailable, elapsed, &cfg),
            eviction_step(UnitVramReading::Fallback(None), elapsed, &cfg),
            "divergence at elapsed={elapsed}"
        );
    }
}

#[test]
fn eviction_step_attributed_freed_when_unit_vram_is_zero() {
    let cfg = Config::default();
    assert_eq!(
        eviction_step(UnitVramReading::Attributed(0), 1_000_000_000, &cfg),
        EvictionStep::Freed
    );
}

#[test]
fn eviction_step_attributed_freed_below_threshold_nonzero() {
    let cfg = Config::default();
    assert_eq!(
        eviction_step(
            UnitVramReading::Attributed(1999),
            1_000_000_000,
            &cfg
        ),
        EvictionStep::Freed
    );
    assert_eq!(
        eviction_step(
            UnitVramReading::Attributed(2000),
            1_000_000_000,
            &cfg
        ),
        EvictionStep::KeepWaiting
    );
}

#[test]
fn eviction_step_attributed_still_held_keeps_waiting_then_escalates() {
    let cfg = Config::default();
    assert_eq!(
        eviction_step(
            UnitVramReading::Attributed(6000),
            1_000_000_000,
            &cfg
        ),
        EvictionStep::KeepWaiting
    );
    assert_eq!(
        eviction_step(
            UnitVramReading::Attributed(6000),
            5_000_000_000,
            &cfg
        ),
        EvictionStep::Escalate
    );
}

#[test]
fn amd_backend_structurally_falls_back_never_attributed() {
    assert!(!GpuBackend::Amd.attribution_capable());
    let cfg = Config::default();
    assert_eq!(
        eviction_step(fallback(500), 1_000_000_000, &cfg),
        EvictionStep::Freed
    );
    assert_eq!(
        eviction_step(fallback(21000), 1_000_000_000, &cfg),
        EvictionStep::KeepWaiting
    );
}

#[test]
fn never_seen_nonzero_zero_attribution_is_not_trustworthy() {
    assert!(!attribution_is_trustworthy(Some(0), false));
}

#[test]
fn seen_nonzero_then_zero_attribution_is_trustworthy_and_freed() {
    assert!(attribution_is_trustworthy(Some(0), true));
    let cfg = Config::default();
    assert_eq!(
        eviction_step(UnitVramReading::Attributed(0), 1_000_000_000, &cfg),
        EvictionStep::Freed
    );
}

#[test]
fn seen_nonzero_still_held_attribution_is_trustworthy_not_freed() {
    assert!(attribution_is_trustworthy(Some(6000), true));
    assert!(attribution_is_trustworthy(Some(6000), false));
    let cfg = Config::default();
    assert_eq!(
        eviction_step(
            UnitVramReading::Attributed(6000),
            1_000_000_000,
            &cfg
        ),
        EvictionStep::KeepWaiting
    );
    assert_eq!(
        eviction_step(
            UnitVramReading::Attributed(6000),
            5_000_000_000,
            &cfg
        ),
        EvictionStep::Escalate
    );
}

#[test]
fn attribution_never_attempted_is_never_trustworthy() {
    assert!(!attribution_is_trustworthy(None, false));
    assert!(!attribution_is_trustworthy(None, true));
}

#[test]
fn eviction_metric_outcome_maps_freed_and_escalated() {
    assert_eq!(
        eviction_metric_outcome(&Ok(EvictionOutcome::Freed)),
        Some(EvictionMetricOutcome::Graceful)
    );
    assert_eq!(
        eviction_metric_outcome(&Ok(EvictionOutcome::Escalated)),
        Some(EvictionMetricOutcome::Sigkill)
    );
}

#[test]
fn eviction_metric_outcome_already_clear_is_not_counted() {
    assert_eq!(
        eviction_metric_outcome(&Ok(EvictionOutcome::AlreadyClear)),
        None
    );
}

#[test]
fn eviction_metric_outcome_error_maps_to_error_bucket() {
    let err = UnitError::Exit {
        action: "stop",
        unit: "fake.service".to_string(),
        detail: "boom".to_string(),
    };
    assert_eq!(
        eviction_metric_outcome(&Err(err)),
        Some(EvictionMetricOutcome::Error)
    );
}

#[test]
fn eviction_metric_outcome_labels() {
    assert_eq!(EvictionMetricOutcome::Graceful.label(), "graceful");
    assert_eq!(EvictionMetricOutcome::Sigkill.label(), "sigkill");
    assert_eq!(EvictionMetricOutcome::Error.label(), "error");
}

#[test]
fn eviction_step_attributed_freed_wins_over_timeout_on_last_tick() {
    let cfg = Config::default();
    assert_eq!(
        eviction_step(
            UnitVramReading::Attributed(0),
            10_000_000_000,
            &cfg
        ),
        EvictionStep::Freed
    );
}

#[test]
fn parse_ollama_ps_extracts_model_names() {
    let out = "\
NAME          ID              SIZE     PROCESSOR    UNTIL
qwen3:30b     abc123          21 GB    100% GPU     4 minutes from now
llama3:8b     def456          5 GB     100% GPU     2 minutes from now
";
    assert_eq!(parse_ollama_ps(out), vec!["qwen3:30b", "llama3:8b"]);
}

#[test]
fn parse_ollama_ps_header_only_is_empty() {
    let out = "NAME    ID    SIZE    PROCESSOR    UNTIL\n";
    assert!(parse_ollama_ps(out).is_empty());
}

#[test]
fn parse_ollama_ps_empty_is_empty() {
    assert!(parse_ollama_ps("").is_empty());
    assert!(parse_ollama_ps("\n\n").is_empty());
}

fn systemd_unit(name: &str) -> ManagedUnit {
    ManagedUnit {
        unit: name.to_string(),
        eager_restart: true,
        priority: gpu_arbiter::config::DEFAULT_UNIT_PRIORITY,
        busy_cmd: None,
        yield_cmd: None,
        resume_cmd: None,
        yield_timeout_s: None,
        vram_match: None,
        kind: None,
        introspect_cmd: None,
        stop_cmd: None,
        start_cmd: None,
        is_active_cmd: None,
        kill_cmd: None,
    }
}

fn unit(name: &str, kind: Option<&str>, introspect_cmd: Option<&str>) -> ManagedUnit {
    ManagedUnit {
        unit: name.to_string(),
        eager_restart: true,
        priority: gpu_arbiter::config::DEFAULT_UNIT_PRIORITY,
        busy_cmd: None,
        yield_cmd: None,
        resume_cmd: None,
        yield_timeout_s: None,
        vram_match: None,
        kind: kind.map(str::to_string),
        introspect_cmd: introspect_cmd.map(str::to_string),
        stop_cmd: None,
        start_cmd: None,
        is_active_cmd: None,
        kill_cmd: None,
    }
}

#[test]
fn introspection_command_takes_precedence() {
    let u = unit("ollama.service", Some("ollama"), Some("my-cli list"));
    assert_eq!(
        u.introspection(),
        Introspection::Command("my-cli list".to_string())
    );
}

#[test]
fn introspection_blank_command_falls_through() {
    let u = unit("asr.service", Some("ollama"), Some("   "));
    assert_eq!(u.introspection(), Introspection::Ollama);
}

#[test]
fn introspection_overlong_command_falls_through() {
    let huge = "x".repeat(gpu_arbiter::config::MAX_INTROSPECT_CMD_LEN + 1);
    let u = unit("asr.service", Some("ollama"), Some(&huge));
    assert_eq!(u.introspection(), Introspection::Ollama);
    let u2 = unit("ollama.service", None, Some(&huge));
    assert_eq!(u2.introspection(), Introspection::Ollama);
    let u3 = unit("plain.service", None, Some(&huge));
    assert_eq!(u3.introspection(), Introspection::Unlisted);
    let at_limit = "x".repeat(gpu_arbiter::config::MAX_INTROSPECT_CMD_LEN);
    let u4 = unit("plain.service", None, Some(&at_limit));
    assert_eq!(u4.introspection(), Introspection::Command(at_limit));
}

#[test]
fn introspection_kind_ollama_selects_ollama() {
    let u = unit("anything.service", Some("ollama"), None);
    assert_eq!(u.introspection(), Introspection::Ollama);
}

#[test]
fn introspection_other_kind_suppresses_name_heuristic() {
    let u = unit("ollama.service", Some("vllm"), None);
    assert_eq!(u.introspection(), Introspection::Unlisted);
}

#[test]
fn introspection_name_heuristic_when_kind_unset() {
    assert_eq!(
        unit("ollama.service", None, None).introspection(),
        Introspection::Ollama
    );
    assert_eq!(
        unit("My-Ollama-Runner.service", None, None).introspection(),
        Introspection::Ollama
    );
}

#[test]
fn introspection_none_for_plain_unit() {
    assert_eq!(
        unit("vllm.service", None, None).introspection(),
        Introspection::Unlisted
    );
}

#[test]
fn parse_model_lines_trims_and_drops_empties() {
    let out = "  model-a  \n\nmodel-b\n   \nmodel-c\n";
    assert_eq!(
        parse_model_lines(out),
        vec!["model-a", "model-b", "model-c"]
    );
    assert!(parse_model_lines("").is_empty());
    assert!(parse_model_lines("\n  \n").is_empty());
}

#[test]
fn resolve_no_overrides_is_systemd() {
    assert_eq!(
        Supervisor::resolve(&systemd_unit("ollama.service")),
        Supervisor::Systemd
    );
}

#[test]
fn resolve_with_overrides_is_command() {
    let cfg = Config::from_toml(
        r#"
        [[managed_units]]
        unit = "ollama"
        stop_cmd = ["rc-service", "ollama", "stop"]
        start_cmd = ["rc-service", "ollama", "start"]
        is_active_cmd = "rc-service ollama status"
        kill_cmd = ["pkill", "-9", "ollama"]
        "#,
    )
    .unwrap();
    assert_eq!(
        Supervisor::resolve(&cfg.managed_units[0]),
        Supervisor::Command {
            stop: vec!["rc-service".into(), "ollama".into(), "stop".into()],
            start: vec!["rc-service".into(), "ollama".into(), "start".into()],
            is_active: vec!["rc-service".into(), "ollama".into(), "status".into()],
            kill: Some(vec!["pkill".into(), "-9".into(), "ollama".into()]),
        }
    );
}

#[test]
fn resolve_command_without_kill_leaves_kill_none() {
    let cfg = Config::from_toml(
        r#"
        [[managed_units]]
        unit = "asr"
        stop_cmd = "sv down asr"
        start_cmd = "sv up asr"
        is_active_cmd = "sv status asr"
        "#,
    )
    .unwrap();
    let sup = Supervisor::resolve(&cfg.managed_units[0]);
    match sup {
        Supervisor::Command { kill, stop, .. } => {
            assert_eq!(kill, None);
            assert_eq!(
                stop,
                vec!["sv".to_string(), "down".to_string(), "asr".to_string()]
            );
        }
        Supervisor::Systemd => panic!("expected Command supervisor"),
    }
}

#[test]
fn check_config_warns_on_yield_without_busy() {
    let text = r#"
        [[managed_units]]
        unit = "fake.service"
        yield_cmd = ["true"]
        "#;
    let out = check_config("config.toml", ConfigFile::Text(text.to_string())).unwrap();
    assert!(out.starts_with("OK:"), "still a valid config: {out}");
    assert!(
        out.contains("WARNING") && out.contains("fake.service"),
        "expected a warning naming the unit, got: {out}"
    );
}

#[test]
fn start_by_name_unknown_unit_is_typed_error() {
    let cfg = Config::default();
    let err = resolve_unit(&cfg, "not-a-real-unit").unwrap_err();
    assert!(matches!(err, UnitError::Exit { .. }));
    assert_eq!(
        err.message(),
        "resolve not-a-real-unit failed: unit is not (or no longer) managed"
    );
    assert_eq!(resolve_unit(&cfg, "ollama.service"), Ok(0));
}

#[test]
fn command_is_running_uses_exit_status() {
    let mut active = systemd_unit("dummy");
    active.is_active_cmd = Some(gpu_arbiter::config::ArgvCmd(vec!["true".to_string()]));
    assert_eq!(command_for(&active, Verb::IsActive).unwrap(), vec!["true"]);
    let exited = |success: bool| RunOutcome::Exited {
        success,
        stderr: vec![],
    };
    assert_eq!(running_result(&active, exited(true)), Ok(true));
    assert_eq!(running_result(&active, exited(false)), Ok(false));
    assert!(matches!(
        running_result(&active, RunOutcome::TimedOut),
        Err(UnitError::Timeout { .. })
    ));
    assert!(matches!(
        running_result(&active, RunOutcome::NotSpawned("gone".into())),
        Err(UnitError::Control { .. })
    ));
}

#[test]
fn command_is_running_empty_argv_is_typed_error() {
    let mut u = systemd_unit("dummy");
    u.is_active_cmd = Some(gpu_arbiter::config::ArgvCmd(vec![]));
    u.stop_cmd = Some(gpu_arbiter::config::ArgvCmd(vec!["true".to_string()]));
    let r = command_for(&u, Verb::IsActive);
    assert!(matches!(r, Err(UnitError::Exit { .. })));
    assert_eq!(
        r.unwrap_err().message(),
        "is-active dummy failed: empty command (no override configured for this verb)"
    );
}

#[test]
fn systemd_units_are_driven_by_systemctl() {
    let u = systemd_unit("ollama.service");
    assert_eq!(
        command_for(&u, Verb::Start).unwrap(),
        vec!["systemctl", "start", "ollama.service"]
    );
    assert_eq!(
        command_for(&u, Verb::Stop).unwrap(),
        vec!["systemctl", "stop", "ollama.service"]
    );
    assert_eq!(
        command_for(&u, Verb::IsActive).unwrap(),
        vec!["systemctl", "is-active", "ollama.service"]
    );
    assert_eq!(
        command_for(&u, Verb::Kill).unwrap(),
        vec!["systemctl", "kill", "-s", "SIGKILL", "ollama.service"]
    );
}

#[test]
fn kill_without_a_command_stops_again() {
    let mut u = systemd_unit("asr");
    u.stop_cmd = Some(gpu_arbiter::config::ArgvCmd(vec!["sv".into(), "down".into()]));
    assert_eq!(command_for(&u, Verb::Kill).unwrap(), vec!["sv", "down"]);
    u.kill_cmd = Some(gpu_arbiter::config::ArgvCmd(vec!["pkill".into()]));
    assert_eq!(command_for(&u, Verb::Kill).unwrap(), vec!["pkill"]);
}

#[test]
fn failed_commands_say_what_they_said() {
    let u = systemd_unit("ollama.service");
    let failed = RunOutcome::Exited {
        success: false,
        stderr: b"  no such unit\n".to_vec(),
    };
    assert_eq!(
        control_result(&u, Verb::Stop, failed).unwrap_err().message(),
        "stop ollama.service failed: no such unit"
    );
    assert_eq!(
        control_result(&u, Verb::Start, RunOutcome::TimedOut)
            .unwrap_err()
            .message(),
        "start ollama.service timed out after 10s"
    );
    assert_eq!(
        control_result(&u, Verb::Kill, RunOutcome::NotSpawned("gone".into()))
            .unwrap_err()
            .message(),
        "kill ollama.service: spawning failed: gone"
    );
    let fine = RunOutcome::Exited {
        success: true,
        stderr: b"noise".to_vec(),
    };
    assert_eq!(control_result(&u, Verb::Stop, fine), Ok(()));
}

#[test]
fn hooks_fail_in_two_ways() {
    let ran = |success: bool| {
        Some(RunOutcome::Exited {
            success,
            stderr: vec![],
        })
    };
    assert_eq!(hook_run(&ran(true)), HookRun::Success);
    assert_eq!(hook_run(&ran(false)), HookRun::Failed(HookFailure::NonZero));
    assert_eq!(hook_run(&None), HookRun::Failed(HookFailure::Unrunnable));
    assert_eq!(
        hook_run(&Some(RunOutcome::TimedOut)),
        HookRun::Failed(HookFailure::Unrunnable)
    );
    let mut u = systemd_unit("x");
    u.resume_cmd = Some(gpu_arbiter::config::ArgvCmd(vec!["up".into()]));
    assert_eq!(hook_command(&u, Hook::Resume).unwrap(), vec!["up"]);
    assert_eq!(hook_command(&u, Hook::Busy), None);
    assert_eq!(hook_command(&u, Hook::Yield), None);
}

#[test]
fn excerpt_keeps_a_line_of_exactly_the_limit() {
    let line = "y".repeat(300);
    assert_eq!(stderr_excerpt(line.as_bytes()), line);
    let longer = "y".repeat(301);
    assert_eq!(
        stderr_excerpt(longer.as_bytes()),
        format!("{line}… (truncated)")
    );
    assert_eq!(stderr_excerpt(&[0xff, b'a']), "\u{fffd}a");
}

#[test]
fn yielded_evictions_are_counted_as_such() {
    assert_eq!(
        eviction_metric_outcome(&Ok(EvictionOutcome::Yielded)),
        Some(EvictionMetricOutcome::Yielded)
    );
    assert_eq!(EvictionMetricOutcome::Yielded.label(), "yielded");
}

#[test]
fn eviction_step_attributed_zero_is_freed_whatever_the_threshold() {
    let cfg = Config {
        vram_free_threshold_mb: 0,
        ..Config::default()
    };
    for elapsed in [1_000_000_000, 99_000_000_000] {
        assert_eq!(
            eviction_step(UnitVramReading::Attributed(0), elapsed, &cfg),
            EvictionStep::Freed
        );
    }
    assert_eq!(
        eviction_step(UnitVramReading::Attributed(1), 1_000_000_000, &cfg),
        EvictionStep::KeepWaiting
    );
    assert_eq!(
        eviction_step(fallback(0), 1_000_000_000, &cfg),
        EvictionStep::KeepWaiting
    );
}
