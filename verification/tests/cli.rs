use gpu_arbiter::cli::{
    check_config, default_config_path, help_text, needs_local_config, parse_args, quiet_exit_code, render_status,
    resolve_config_path, resolve_daemon_url, status_outcome, wait_condition_met, wait_step,
    watch_human_line, watch_json_line, watch_should_emit, watch_step, Command, StatusOutput,
    WaitFor, WaitStep, CONFIG_ENV_VAR, DEFAULT_CONFIG_PATH, DEFAULT_WAIT_TIMEOUT_S,
};
use gpu_arbiter::config::{ConfigError, ConfigFile, Platform};
use gpu_arbiter::json::Json;

fn tree(v: &serde_json::Value) -> Json {
    match v {
        serde_json::Value::Null => Json::Null,
        serde_json::Value::Bool(b) => Json::Bool(*b),
        serde_json::Value::Number(n) => match n.as_u64() {
            Some(u) => Json::Uint(u),
            None => Json::OtherNumber,
        },
        serde_json::Value::String(s) => Json::Text(s.clone()),
        serde_json::Value::Array(a) => Json::List(a.iter().map(tree).collect()),
        serde_json::Value::Object(o) => {
            Json::Object(o.iter().map(|(k, v)| (k.clone(), tree(v))).collect())
        }
    }
}

fn payload(text: &str) -> Json {
    tree(&serde_json::from_str(text).unwrap())
}

#[test]
fn no_args_runs_daemon_with_no_explicit_config() {
    assert_eq!(
        parse_args(&[]),
        Ok(Command::RunDaemon { config: None })
    );
}

#[test]
fn version_and_help_flags() {
    assert_eq!(parse_args(&["--version"]), Ok(Command::Version));
    assert_eq!(parse_args(&["-V"]), Ok(Command::Version));
    assert_eq!(parse_args(&["--help"]), Ok(Command::Help));
    assert_eq!(parse_args(&["-h"]), Ok(Command::Help));
}

#[test]
fn version_help_short_circuit_even_with_other_flags() {
    assert_eq!(parse_args(&["--config", "x", "--help"]), Ok(Command::Help));
    assert_eq!(parse_args(&["status", "--version"]), Ok(Command::Version));
}

#[test]
fn config_flag_both_spellings_and_eq_form() {
    assert_eq!(
        parse_args(&["--config", "/tmp/a.toml"]),
        Ok(Command::RunDaemon {
            config: Some("/tmp/a.toml".into())
        })
    );
    assert_eq!(
        parse_args(&["-c", "/tmp/b.toml"]),
        Ok(Command::RunDaemon {
            config: Some("/tmp/b.toml".into())
        })
    );
    assert_eq!(
        parse_args(&["--config=/tmp/c.toml"]),
        Ok(Command::RunDaemon {
            config: Some("/tmp/c.toml".into())
        })
    );
}

#[test]
fn dash_c_equals_form_is_no_longer_accepted() {
    assert!(parse_args(&["-c=/tmp/d.toml"]).is_err());
}

#[test]
fn config_flag_missing_value_is_error() {
    assert!(parse_args(&["--config"]).is_err());
    assert!(parse_args(&["-c"]).is_err());
}

#[test]
fn config_flag_empty_value_is_error_in_every_form() {
    assert!(parse_args(&["--config="]).is_err());
    assert!(parse_args(&["--config", ""]).is_err());
    assert!(parse_args(&["-c", ""]).is_err());
    assert!(parse_args(&["status", "--config="]).is_err());
}

#[test]
fn check_config_with_and_without_path() {
    assert_eq!(
        parse_args(&["--check-config"]),
        Ok(Command::CheckConfig { config: None })
    );
    assert_eq!(
        parse_args(&["--check-config", "--config", "/etc/x.toml"]),
        Ok(Command::CheckConfig {
            config: Some("/etc/x.toml".into())
        })
    );
    assert_eq!(
        parse_args(&["--config", "/etc/x.toml", "--check-config"]),
        Ok(Command::CheckConfig {
            config: Some("/etc/x.toml".into())
        })
    );
}

#[test]
fn status_subcommand_variants() {
    assert_eq!(
        parse_args(&["status"]),
        Ok(Command::Status {
            config: None,
            url: None,
            json: false,
            quiet: false,
        })
    );
    assert_eq!(
        parse_args(&["status", "--json"]),
        Ok(Command::Status {
            config: None,
            url: None,
            json: true,
            quiet: false,
        })
    );
    assert_eq!(
        parse_args(&["status", "--config", "/etc/x.toml", "--json"]),
        Ok(Command::Status {
            config: Some("/etc/x.toml".into()),
            url: None,
            json: true,
            quiet: false,
        })
    );
    assert_eq!(
        parse_args(&["--json", "status"]),
        Ok(Command::Status {
            config: None,
            url: None,
            json: true,
            quiet: false,
        })
    );
    assert_eq!(
        parse_args(&["status", "--url", "http://host:48750", "-q"]),
        Ok(Command::Status {
            config: None,
            url: Some("http://host:48750".into()),
            json: false,
            quiet: true,
        })
    );
    assert_eq!(
        parse_args(&["status", "--quiet"]),
        Ok(Command::Status {
            config: None,
            url: None,
            json: false,
            quiet: true,
        })
    );
}

#[test]
fn status_json_and_quiet_are_mutually_exclusive() {
    assert!(parse_args(&["status", "--json", "-q"]).is_err());
}

#[test]
fn wait_subcommand_variants() {
    assert_eq!(
        parse_args(&["wait"]),
        Ok(Command::Wait {
            config: None,
            url: None,
            for_state: WaitFor::Available,
            timeout_s: DEFAULT_WAIT_TIMEOUT_S,
        })
    );
    assert_eq!(
        parse_args(&["wait", "--for", "claimed", "--timeout", "5"]),
        Ok(Command::Wait {
            config: None,
            url: None,
            for_state: WaitFor::Claimed,
            timeout_s: 5,
        })
    );
    assert_eq!(
        parse_args(&[
            "wait",
            "--for=available",
            "--timeout=10",
            "--url=http://x:1"
        ]),
        Ok(Command::Wait {
            config: None,
            url: Some("http://x:1".into()),
            for_state: WaitFor::Available,
            timeout_s: 10,
        })
    );
}

#[test]
fn wait_rejects_bad_for_and_bad_timeout() {
    assert!(parse_args(&["wait", "--for", "bogus"]).is_err());
    assert!(parse_args(&["wait", "--timeout", "not-a-number"]).is_err());
    assert!(parse_args(&["wait", "--timeout", "-1"]).is_err());
}

#[test]
fn wait_rejects_status_only_flags() {
    assert!(parse_args(&["wait", "--json"]).is_err());
    assert!(parse_args(&["wait", "-q"]).is_err());
}

#[test]
fn watch_subcommand_variants() {
    assert_eq!(
        parse_args(&["watch"]),
        Ok(Command::Watch {
            config: None,
            url: None,
            json: false,
        })
    );
    assert_eq!(
        parse_args(&["watch", "--json", "--url", "http://x:1"]),
        Ok(Command::Watch {
            config: None,
            url: Some("http://x:1".into()),
            json: true,
        })
    );
}

#[test]
fn watch_rejects_wait_only_flags() {
    assert!(parse_args(&["watch", "--for", "available"]).is_err());
    assert!(parse_args(&["watch", "--timeout", "5"]).is_err());
    assert!(parse_args(&["watch", "-q"]).is_err());
}

#[test]
fn url_only_valid_on_status_family_subcommands() {
    assert!(parse_args(&["--url", "http://x:1"]).is_err());
    assert!(parse_args(&["--check-config", "--url", "http://x:1"]).is_err());
}

#[test]
fn unknown_flag_and_subcommand_are_errors() {
    assert!(parse_args(&["--frobnicate"]).is_err());
    assert!(parse_args(&["bogus"]).is_err());
    assert!(parse_args(&["status", "extra"]).is_err());
}

#[test]
fn json_without_status_or_watch_is_error() {
    assert!(parse_args(&["--json"]).is_err());
}

#[test]
fn check_config_with_status_is_error() {
    assert!(parse_args(&["status", "--check-config"]).is_err());
}

#[test]
fn check_config_with_wait_or_watch_is_error() {
    assert!(parse_args(&["wait", "--check-config"]).is_err());
    assert!(parse_args(&["watch", "--check-config"]).is_err());
}

#[test]
fn resolve_prefers_flag_over_env_and_default() {
    let path = resolve_config_path(Some("/flag.toml"), |_| Some("/env.toml".into()), Platform::Unix);
    assert_eq!(path, "/flag.toml");
}

#[test]
fn resolve_uses_env_when_no_flag() {
    let path = resolve_config_path(
        None,
        |k| {
            assert_eq!(k, CONFIG_ENV_VAR);
            Some("/env.toml".into())
        },
        Platform::Unix,
    );
    assert_eq!(path, "/env.toml");
}

#[test]
fn resolve_falls_back_to_default() {
    let path = resolve_config_path(None, |_| None, Platform::Unix);
    assert_eq!(path, DEFAULT_CONFIG_PATH);
}

#[test]
fn resolve_ignores_empty_env() {
    let path = resolve_config_path(None, |_| Some(String::new()), Platform::Unix);
    assert_eq!(path, DEFAULT_CONFIG_PATH);
}

#[test]
fn check_config_missing_file_is_ok() {
    let out = check_config("/nonexistent/gpu-arbiter/none.toml", ConfigFile::Missing).unwrap();
    assert_eq!(out, "OK: /nonexistent/gpu-arbiter/none.toml");
}

#[test]
fn check_config_parse_error_for_malformed_file() {
    let file = ConfigFile::Text("port = \"not_a_number\"".to_string());
    let err = check_config("checkcfg-test.toml", file).unwrap_err();
    assert!(matches!(err, ConfigError::Parse(_)));
}

#[test]
fn check_config_ok_for_valid_file() {
    let file = ConfigFile::Text("port = 49000\n".to_string());
    let out = check_config("checkcfg-valid.toml", file).unwrap();
    assert!(out.starts_with("OK: "));
}

#[test]
fn render_status_gaming_payload() {
    let payload = payload(
        r#"{
        "version": "1.2.3",
        "state": "gaming",
        "claims": ["steam:440"],
        "units": [
            { "unit": "ollama.service", "running": false, "models": [], "vram_mb": 0 },
            { "unit": "vllm.service", "running": false, "models": [] }
        ],
        "ollama": { "unit": "ollama.service", "running": false, "models": [] },
        "gpu_vram_used_mb": 21500,
        "gpu_vram_total_mb": 32768,
        "since": "2026-06-07T20:00:00Z"
    }"#,
    );
    let out = render_status(&payload);
    assert!(out.contains("State:   gaming"), "{out}");
    assert!(out.contains("Since:   2026-06-07T20:00:00Z"), "{out}");
    assert!(out.contains("Claims:  steam:440"), "{out}");
    assert!(
        out.contains("GPU:     21500 / 32768 MiB VRAM used"),
        "{out}"
    );
    assert!(out.contains("ollama.service: stopped"), "{out}");
    assert!(out.contains("vllm.service: stopped"), "{out}");
    assert!(out.contains("Daemon:  v1.2.3"), "{out}");
    assert!(!out.contains("Degraded"), "{out}");
}

#[test]
fn render_status_degraded_shows_a_line() {
    let payload = payload(
        r#"{
        "version": "1.2.3",
        "state": "gaming",
        "claims": ["steam:440"],
        "units": [],
        "ollama": { "unit": "ollama.service", "running": false, "models": [] },
        "gpu_vram_used_mb": 21500,
        "gpu_vram_total_mb": 32768,
        "since": "2026-06-07T20:00:00Z",
        "degraded": true
    }"#,
    );
    let out = render_status(&payload);
    assert!(out.contains("Degraded:"), "{out}");
}

#[test]
fn render_status_available_with_models_and_vram() {
    let payload = payload(
        r#"{
        "version": "0.1.0",
        "state": "available",
        "claims": [],
        "units": [
            { "unit": "ollama.service", "running": true, "models": ["qwen3:30b"], "vram_mb": 21000 }
        ],
        "ollama": { "unit": "ollama.service", "running": true, "models": ["qwen3:30b"], "vram_mb": 21000 },
        "gpu_vram_used_mb": 21000,
        "gpu_vram_total_mb": 32768,
        "since": "2026-06-07T20:00:00Z"
    }"#,
    );
    let out = render_status(&payload);
    assert!(out.contains("State:   available"), "{out}");
    assert!(out.contains("Claims:  (none)"), "{out}");
    assert!(
        out.contains("ollama.service: running, 21000 MiB [qwen3:30b]"),
        "{out}"
    );
}

#[test]
fn render_status_partial_payload_is_defensive() {
    let payload = payload(
        r#"{ "state": "available" }"#,
    );
    let out = render_status(&payload);
    assert!(out.contains("State:   available"), "{out}");
    assert!(out.contains("Units:   (none)"), "{out}");
    assert!(out.contains("Daemon:  v?"), "{out}");
    assert!(out.contains("GPU:     0 / 0 MiB"), "{out}");
}

#[test]
fn render_status_unit_running_null_is_unknown() {
    let payload = payload(
        r#"{
        "state": "available",
        "units": [
            { "unit": "ollama.service", "running": null, "models": [] },
            { "unit": "vllm.service", "running": false, "models": [] },
            { "unit": "asr.service", "running": true, "models": [] }
        ]
    }"#,
    );
    let out = render_status(&payload);
    assert!(out.contains("ollama.service: unknown"), "{out}");
    assert!(out.contains("vllm.service: stopped"), "{out}");
    assert!(out.contains("asr.service: running"), "{out}");
}

#[test]
fn resolve_daemon_url_prefers_flag_over_env_and_local_port() {
    assert_eq!(
        resolve_daemon_url(Some("http://flag:1"), Some("http://env:2"), 3),
        "http://flag:1"
    );
}

#[test]
fn resolve_daemon_url_falls_back_to_env_then_local_port() {
    assert_eq!(
        resolve_daemon_url(None, Some("http://env:2"), 3),
        "http://env:2"
    );
    assert_eq!(
        resolve_daemon_url(None, None, 48750),
        "http://127.0.0.1:48750"
    );
    assert_eq!(
        resolve_daemon_url(None, Some(""), 48750),
        "http://127.0.0.1:48750"
    );
}

#[test]
fn resolve_daemon_url_strips_trailing_slash() {
    assert_eq!(
        resolve_daemon_url(Some("http://x:1/"), None, 0),
        "http://x:1"
    );
    assert_eq!(
        resolve_daemon_url(None, Some("http://x:1/"), 0),
        "http://x:1"
    );
}

#[test]
fn wait_condition_met_maps_available_and_claimed() {
    assert!(wait_condition_met("available", WaitFor::Available));
    assert!(!wait_condition_met("gaming", WaitFor::Available));
    assert!(!wait_condition_met("evicting", WaitFor::Available));

    assert!(wait_condition_met("gaming", WaitFor::Claimed));
    assert!(!wait_condition_met("available", WaitFor::Claimed));
    assert!(!wait_condition_met("evicting", WaitFor::Claimed));
}

#[test]
fn quiet_exit_code_zero_only_for_available() {
    assert_eq!(quiet_exit_code("available"), 0);
    assert_eq!(quiet_exit_code("gaming"), 1);
    assert_eq!(quiet_exit_code("evicting"), 1);
    assert_eq!(quiet_exit_code("?"), 1);
}

#[test]
fn watch_should_emit_on_first_observation_and_on_change_only() {
    assert!(watch_should_emit(None, "available"));
    assert!(!watch_should_emit(Some("available"), "available"));
    assert!(watch_should_emit(Some("available"), "gaming"));
}

#[test]
fn watch_human_line_renders_start_and_transition() {
    let claims = vec!["steam:440".to_string()];
    let start = watch_human_line("2026-07-02T00:00:00Z", None, "gaming", &claims);
    assert!(start.contains("(start) gaming"), "{start}");
    assert!(start.contains("claims=steam:440"), "{start}");

    let transition = watch_human_line("2026-07-02T00:05:00Z", Some("gaming"), "available", &[]);
    assert!(transition.contains("gaming -> available"), "{transition}");
    assert!(transition.contains("claims=-"), "{transition}");
}

#[test]
fn watch_json_line_is_compact_ndjson_with_null_from_on_start() {
    let line = watch_json_line("2026-07-02T00:00:00Z", None, "gaming", &[]);
    assert_eq!(line.lines().count(), 1, "NDJSON must be a single line");
    let v: serde_json::Value = serde_json::from_str(&line).unwrap();
    assert_eq!(v["from"], serde_json::Value::Null);
    assert_eq!(v["to"], "gaming");
    assert_eq!(v["ts"], "2026-07-02T00:00:00Z");

    let claims = vec!["steam:440".to_string()];
    let line = watch_json_line("2026-07-02T00:05:00Z", Some("gaming"), "available", &claims);
    let v: serde_json::Value = serde_json::from_str(&line).unwrap();
    assert_eq!(v["from"], "gaming");
    assert_eq!(v["to"], "available");
    assert_eq!(v["claims"], serde_json::Value::from(vec!["steam:440"]));
}

fn refusal(argv: &[&str]) -> String {
    parse_args(argv).unwrap_err().0
}

#[test]
fn refusals_say_why() {
    assert_eq!(refusal(&["--frobnicate"]), "unknown flag: --frobnicate");
    assert_eq!(refusal(&["bogus"]), "unknown subcommand: bogus");
    assert_eq!(refusal(&["status", "extra"]), "unexpected argument: extra");
    assert_eq!(refusal(&["--config"]), "--config requires a non-empty value");
    assert_eq!(refusal(&["-c", ""]), "-c requires a non-empty value");
    assert_eq!(refusal(&["--url="]), "--url= requires a non-empty value");
    assert_eq!(
        refusal(&["wait", "--for", "bogus"]),
        "--for must be 'available' or 'claimed', got 'bogus'"
    );
    assert_eq!(
        refusal(&["wait", "--timeout=soon"]),
        "--timeout requires an integer number of seconds, got 'soon'"
    );
    assert_eq!(
        refusal(&["status", "--json", "-q"]),
        "--json and --quiet/-q are mutually exclusive"
    );
    assert_eq!(
        refusal(&["--url", "x"]),
        "--url is only valid with `status`/`wait`/`watch`"
    );
    assert_eq!(refusal(&["--for", "x"]), "--for is only valid with `wait`");
    assert_eq!(
        refusal(&["--timeout", "1"]),
        "--timeout is only valid with `wait`"
    );
}

#[test]
fn value_after_the_first_equals_sign_is_whole() {
    assert_eq!(
        parse_args(&["--config=a=b"]),
        Ok(Command::RunDaemon {
            config: Some("a=b".into())
        })
    );
}

#[test]
fn help_names_every_place() {
    let h = help_text(Platform::Unix);
    assert!(h.starts_with("gpu-arbiter 0.1.0 — gaming-first GPU arbiter daemon\n\nUsage:\n  gpu-arbiter [--config"));
    assert!(h.contains("(default 60s)\n"));
    assert!(h.contains("  wait     Poll /status (every 2s) until --for is reached"));
    assert!(h.contains("  watch    Poll /status (every 2s) and print"));
    assert!(h.contains("  2. $GPU_ARBITER_CONFIG environment variable\n  3. /etc/gpu-arbiter/config.toml (default)\n"));
    assert!(h.ends_with("the daemon falls back to built-in defaults."));
}

#[test]
fn summary_of_a_reply_is_exact() {
    let v = payload(
        r#"{"version":"1","state":"gaming","since":"t","degraded":true,"claims":["a",3,"b"],
            "gpu_vram_used_mb":1,"gpu_vram_total_mb":2,
            "units":[{"unit":"u","running":true,"vram_mb":5,"models":["m","n"]},{}]}"#,
    );
    assert_eq!(
        render_status(&v),
        "State:   gaming\nSince:   t\nDegraded: one or more units failed to evict (see daemon logs)\nClaims:  a, b\nGPU:     1 / 2 MiB VRAM used\nUnits:\n  u: running, 5 MiB [m, n]\n  ?: unknown\nDaemon:  v1"
    );
    assert_eq!(
        render_status(&Json::Null),
        "State:   ?\nSince:   -\nClaims:  (none)\nGPU:     0 / 0 MiB VRAM used\nUnits:   (none)\nDaemon:  v?"
    );
    let odd = payload(r#"{"gpu_vram_used_mb":-1,"gpu_vram_total_mb":1.5,"claims":{}}"#);
    assert!(render_status(&odd).contains("GPU:     0 / 0 MiB VRAM used"));
}

#[test]
fn status_client_exits_as_documented() {
    let free = payload(r#"{"state":"available"}"#);
    let busy = payload(r#"{"state":"gaming"}"#);
    assert_eq!(status_outcome(Some(&free), false, true), (StatusOutput::Silent, 0));
    assert_eq!(status_outcome(Some(&busy), false, true), (StatusOutput::Silent, 1));
    assert_eq!(status_outcome(Some(&Json::Null), false, true), (StatusOutput::Silent, 1));
    assert_eq!(status_outcome(None, false, true), (StatusOutput::Silent, 2));
    assert_eq!(status_outcome(None, true, false), (StatusOutput::Unreachable, 1));
    assert_eq!(status_outcome(Some(&busy), true, false), (StatusOutput::RawJson, 0));
    assert_eq!(
        status_outcome(Some(&busy), false, false),
        (StatusOutput::Summary(render_status(&busy)), 0)
    );
}

#[test]
fn wait_client_gives_up_only_after_a_look() {
    let free = payload(r#"{"state":"available"}"#);
    let busy = payload(r#"{"state":"gaming"}"#);
    assert_eq!(wait_step(Some(&free), WaitFor::Available, true), WaitStep::Reached);
    assert_eq!(wait_step(Some(&busy), WaitFor::Available, true), WaitStep::TimedOut);
    assert_eq!(wait_step(Some(&busy), WaitFor::Available, false), WaitStep::Poll);
    assert_eq!(wait_step(Some(&busy), WaitFor::Claimed, false), WaitStep::Reached);
    assert_eq!(wait_step(None, WaitFor::Claimed, false), WaitStep::Unreachable);
}

#[test]
fn watch_client_tells_changes() {
    let v = payload(r#"{"state":"gaming","claims":["steam:1"]}"#);
    let (line, state) = watch_step(None, &v, "t", false).unwrap();
    assert_eq!(line, "t  (start) gaming  claims=steam:1");
    assert_eq!(state, "gaming");
    assert_eq!(watch_step(Some("gaming"), &v, "t", false), None);
    let (line, _) = watch_step(Some("available"), &v, "t", true).unwrap();
    let j: serde_json::Value = serde_json::from_str(&line).unwrap();
    assert_eq!(j["from"], "available");
    assert_eq!(j["to"], "gaming");
}

#[test]
fn json_lines_escape_what_they_hold() {
    let line = watch_json_line("a\nb\"", None, "x", &["c\\d".to_string()]);
    assert!(!line.contains('\n'));
    let v: serde_json::Value = serde_json::from_str(&line).unwrap();
    assert_eq!(v["ts"], "a\nb\"");
    assert_eq!(v["claims"][0], "c\\d");
}

#[test]
fn local_config_is_read_only_where_it_is_needed() {
    assert!(needs_local_config(None, None));
    assert!(needs_local_config(None, Some("")));
    assert!(!needs_local_config(None, Some("http://x")));
    assert!(!needs_local_config(Some("http://x"), None));
}

#[test]
fn help_and_version_win_over_whatever_stands_before() {
    assert_eq!(parse_args(&["--frobnicate", "--help"]), Ok(Command::Help));
    assert_eq!(parse_args(&["a", "b", "-V", "-h"]), Ok(Command::Version));
    assert_eq!(parse_args(&["--config", "-h"]), Ok(Command::Help));
    assert_eq!(parse_args(&["--config=", "--version"]), Ok(Command::Version));
    assert!(parse_args(&["--frobnicate"]).is_err());
}

#[test]
fn a_refused_configuration_is_told_with_its_key() {
    let e = check_config("/c", ConfigFile::Text("detect_stema = true".into())).unwrap_err();
    assert_eq!(e.message(), "parsing config: unknown field `detect_stema`");
}

#[test]
fn windows_has_a_path_of_its_own() {
    let own = r"C:\ProgramData\gpu-arbiter\config.toml";
    assert_eq!(default_config_path(Platform::Windows), own);
    assert_eq!(default_config_path(Platform::Unix), DEFAULT_CONFIG_PATH);
    assert_eq!(resolve_config_path(None, |_| None, Platform::Windows), own);
    assert_eq!(
        resolve_config_path(Some("x"), |_| None, Platform::Windows),
        "x"
    );
    assert!(help_text(Platform::Windows).contains(r"3. C:\ProgramData\gpu-arbiter\config.toml (default)"));
}
