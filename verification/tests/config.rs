use gpu_arbiter::addr::IpAddr;
use gpu_arbiter::config::{
    default_socket_path, Config, ConfigError, ConfigFile, GpuBackendKind, Platform,
};
use gpu_arbiter::toml_tree::Toml;

#[test]
fn empty_toml_is_all_defaults() {
    let c = Config::from_toml("").unwrap();
    assert_eq!(c, Config::default());
    assert_eq!(c.port, 48750);
    assert!(c.detect_steam);
    assert!(!c.vram_heuristic);
    assert!(c.presence_detection);
    assert_eq!(c.presence_idle_threshold_s, 600);
    assert_eq!(c.bind, IpAddr::V4([0, 0, 0, 0]));
    assert_eq!(c.socket_path, "/run/gpu-arbiter/gpu-arbiter.sock");
}

#[test]
fn bind_key_parses_and_rejects_garbage() {
    let c = Config::from_toml(r#"bind = "127.0.0.1""#).unwrap();
    assert_eq!(c.bind, IpAddr::V4([127, 0, 0, 1]));
    let c = Config::from_toml(r#"bind = "::1""#).unwrap();
    assert_eq!(c.bind, IpAddr::V6([0, 0, 0, 0, 0, 0, 0, 1]));
    // A malformed address is a typed parse error, not a silent fallback.
    assert!(matches!(
        Config::from_toml(r#"bind = "not-an-ip""#).unwrap_err(),
        ConfigError::Parse(_)
    ));
    assert!(matches!(
        Config::from_toml("bind = 1").unwrap_err(),
        ConfigError::Parse(_)
    ));
}

#[test]
fn socket_path_key_overrides_and_empty_string_is_accepted() {
    let c = Config::from_toml(r#"socket_path = "/run/gpu-arbiter/custom.sock""#).unwrap();
    assert_eq!(c.socket_path, "/run/gpu-arbiter/custom.sock");
    let c = Config::from_toml(r#"socket_path = """#).unwrap();
    assert_eq!(c.socket_path, "");
}

#[test]
fn presence_keys_override() {
    let c = Config::from_toml(
        "
        presence_detection = false
        presence_idle_threshold_s = 120
        ",
    )
    .unwrap();
    assert!(!c.presence_detection);
    assert_eq!(c.presence_idle_threshold_s, 120);
}

#[test]
fn partial_toml_overrides_only_named_keys() {
    let c = Config::from_toml(
        "
        port = 9000
        eager_ollama = false
        ",
    )
    .unwrap();
    assert_eq!(c.port, 9000);
    assert!(!c.eager_ollama);
    assert_eq!(c.ollama_unit, "ollama.service");
    assert_eq!(c.reconcile_interval_s, 30);
}

#[test]
fn missing_file_is_defaults_not_an_error() {
    let c = Config::load(
        "/nonexistent/gpu-arbiter/does-not-exist.toml",
        ConfigFile::Missing,
        Platform::Unix,
    )
    .unwrap();
    assert_eq!(c, Config::default());
}

#[test]
fn malformed_toml_is_a_parse_error() {
    let err = Config::from_toml("port = \"not_a_number\"").unwrap_err();
    assert!(matches!(err, ConfigError::Parse(_)));
}

#[test]
fn unknown_top_level_key_is_rejected() {
    let err = Config::from_toml("detect_stema = true").unwrap_err();
    assert!(matches!(err, ConfigError::Parse(_)));
    assert!(
        err.message().contains("detect_stema"),
        "error should name the offending key: {err:?}"
    );
}

#[test]
fn unknown_per_unit_key_is_rejected() {
    let err = Config::from_toml(
        r#"
        [[managed_units]]
        unit = "ollama.service"
        eagre_restart = true
        "#,
    )
    .unwrap_err();
    assert!(matches!(err, ConfigError::Parse(_)));
    assert!(
        err.message().contains("eagre_restart"),
        "error should name the offending key: {err:?}"
    );
}

#[test]
fn unknown_game_pattern_key_is_rejected() {
    let err = Config::from_toml(
        r#"
        [[game_patterns]]
        name = "heroic"
        match = "Heroic"
        extra = "nope"
        "#,
    )
    .unwrap_err();
    assert!(matches!(err, ConfigError::Parse(_)));
    assert!(
        err.message().contains("extra"),
        "error should name the offending key: {err:?}"
    );
}

#[test]
fn units_toml_key_is_rejected_not_silently_accepted() {
    let err = Config::from_toml("units = []").unwrap_err();
    assert!(matches!(err, ConfigError::Parse(_)));
}

#[test]
fn resolved_units_legacy_fallback_synthesizes_single_entry() {
    let c = Config::default();
    let units = c.resolved_units();
    assert_eq!(units.len(), 1);
    assert_eq!(units[0].unit, "ollama.service");
    assert!(units[0].eager_restart);
    assert_eq!(units[0].vram_match.as_deref(), Some("ollama"));
}

#[test]
fn resolved_units_legacy_fields_carry_through() {
    let c = Config::from_toml(
        r#"
        ollama_unit = "custom-llm.service"
        eager_ollama = false
        "#,
    )
    .unwrap();
    let units = c.resolved_units();
    assert_eq!(units.len(), 1);
    assert_eq!(units[0].unit, "custom-llm.service");
    assert!(!units[0].eager_restart);
}

#[test]
fn parses_managed_units_list_in_order() {
    let c = Config::from_toml(
        r#"
        [[managed_units]]
        unit = "ollama.service"
        eager_restart = true
        vram_match = "ollama"

        [[managed_units]]
        unit = "vllm.service"
        vram_match = "vllm"

        [[managed_units]]
        unit = "no-restart.service"
        eager_restart = false
        "#,
    )
    .unwrap();
    let units = c.resolved_units();
    assert_eq!(units.len(), 3);
    assert_eq!(units[0].unit, "ollama.service");
    assert_eq!(units[1].unit, "vllm.service");
    assert_eq!(units[2].unit, "no-restart.service");
    assert!(units[1].eager_restart);
    assert!(!units[2].eager_restart);
    assert_eq!(units[0].vram_match.as_deref(), Some("ollama"));
    assert_eq!(units[1].vram_match.as_deref(), Some("vllm"));
    assert_eq!(units[2].vram_match, None);
}

#[test]
fn managed_units_take_precedence_over_legacy_fields() {
    let c = Config::from_toml(
        r#"
        ollama_unit = "ignored.service"
        [[managed_units]]
        unit = "only.service"
        "#,
    )
    .unwrap();
    let units = c.resolved_units();
    assert_eq!(units.len(), 1);
    assert_eq!(units[0].unit, "only.service");
}

#[test]
fn gpu_backend_defaults_to_auto_and_parses_each_variant() {
    assert_eq!(Config::default().gpu_backend, GpuBackendKind::Auto);
    assert_eq!(
        Config::from_toml("").unwrap().gpu_backend,
        GpuBackendKind::Auto
    );
    assert_eq!(
        Config::from_toml("gpu_backend = \"auto\"")
            .unwrap()
            .gpu_backend,
        GpuBackendKind::Auto
    );
    assert_eq!(
        Config::from_toml("gpu_backend = \"nvidia\"")
            .unwrap()
            .gpu_backend,
        GpuBackendKind::Nvidia
    );
    assert_eq!(
        Config::from_toml("gpu_backend = \"amd\"")
            .unwrap()
            .gpu_backend,
        GpuBackendKind::Amd
    );
    assert!(matches!(
        Config::from_toml("gpu_backend = \"intel\"").unwrap_err(),
        ConfigError::Parse(_)
    ));
}

#[test]
fn managed_unit_defaults_have_no_command_overrides() {
    let c = Config::from_toml(
        r#"
        [[managed_units]]
        unit = "ollama.service"
        "#,
    )
    .unwrap();
    let u = &c.managed_units[0];
    assert_eq!(u.stop_cmd, None);
    assert_eq!(u.start_cmd, None);
    assert_eq!(u.is_active_cmd, None);
    assert_eq!(u.kill_cmd, None);
}

#[test]
fn argv_cmd_parses_string_array_form() {
    let c = Config::from_toml(
        r#"
        [[managed_units]]
        unit = "ollama"
        stop_cmd = ["rc-service", "ollama", "stop"]
        "#,
    )
    .unwrap();
    assert_eq!(
        c.managed_units[0].stop_cmd.as_ref().unwrap().argv(),
        ["rc-service", "ollama", "stop"]
    );
}

#[test]
fn argv_cmd_parses_single_string_split_on_whitespace() {
    let c = Config::from_toml(
        r#"
        [[managed_units]]
        unit = "ollama"
        is_active_cmd = "rc-service   ollama status"
        "#,
    )
    .unwrap();
    assert_eq!(
        c.managed_units[0].is_active_cmd.as_ref().unwrap().argv(),
        ["rc-service", "ollama", "status"]
    );
}

#[test]
fn argv_cmd_all_four_overrides_parse() {
    let c = Config::from_toml(
        r#"
        [[managed_units]]
        unit = "ollama"
        vram_match = "ollama"
        stop_cmd = ["rc-service", "ollama", "stop"]
        start_cmd = ["rc-service", "ollama", "start"]
        is_active_cmd = "rc-service ollama status"
        kill_cmd = ["pkill", "-9", "ollama"]
        "#,
    )
    .unwrap();
    let u = &c.managed_units[0];
    assert_eq!(
        u.stop_cmd.as_ref().unwrap().argv(),
        ["rc-service", "ollama", "stop"]
    );
    assert_eq!(
        u.start_cmd.as_ref().unwrap().argv(),
        ["rc-service", "ollama", "start"]
    );
    assert_eq!(
        u.is_active_cmd.as_ref().unwrap().argv(),
        ["rc-service", "ollama", "status"]
    );
    assert_eq!(
        u.kill_cmd.as_ref().unwrap().argv(),
        ["pkill", "-9", "ollama"]
    );
}

#[test]
fn parses_game_patterns() {
    let c = Config::from_toml(
        r#"
        [[game_patterns]]
        name = "heroic"
        match = "Heroic"
        "#,
    )
    .unwrap();
    assert_eq!(c.game_patterns.len(), 1);
    assert_eq!(c.game_patterns[0].name, "heroic");
    assert_eq!(c.game_patterns[0].match_substr, "Heroic");
}

#[test]
fn parses_rendered_ansible_template() {
    let rendered = r#"# Managed by Ansible - DO NOT EDIT MANUALLY
# gpu-arbiter daemon config. Keys map 1:1 to the serde Config struct in
# gpu-arbiter src/config.rs (TOML key = gpu_arbiter_* var minus the prefix).
#
# TOML ordering is load-bearing: every root-level bare key MUST appear before
# the first table header ([[managed_units]] / [[game_patterns]]) — a bare key
# after a table header belongs to THAT table, not the root. gpu-arbiter
# >= 0.10.0 parses with deny_unknown_fields and rejects a misplaced key
# outright (0.9.0 silently discarded them, which hid exactly this bug).

# String values are escaped (`\` and `"`) so a quote in any Ansible var can't
# break out of its TOML string and inject arbitrary config.
enabled = true
port = 48750
ollama_unit = "ollama.service"
eager_ollama = true
eviction_timeout_s = 5
vram_free_threshold_mb = 2000
reconcile_interval_s = 30

# --- detection ---
detect_steam = true
vram_heuristic = false
vram_game_threshold_mb = 4000
gpu_allowlist = ["ollama", "kwin_wayland", "plasmashell", "Xwayland"]

# Multi-tenant eviction (v0.3.0+). When this list is present it TAKES PRECEDENCE
# over the legacy ollama_unit/eager_ollama keys above. Eviction runs in order.
[[managed_units]]
unit = "ollama.service"
eager_restart = true
vram_match = "ollama"
[[managed_units]]
unit = "asr-runner.service"
eager_restart = false
vram_match = "asr-runner"

[[game_patterns]]
name = "heroic"
match = "Heroic"

[[game_patterns]]
name = "quo\"te\\back"
match = "Has\"Quote\\Back"
"#;
    let c = Config::from_toml(rendered).expect("rendered Ansible config must parse");

    assert!(c.enabled);
    assert_eq!(c.port, 48750);
    assert_eq!(c.ollama_unit, "ollama.service");
    assert!(c.eager_ollama);
    assert_eq!(c.eviction_timeout_s, 5);
    assert_eq!(c.vram_free_threshold_mb, 2000);
    assert_eq!(c.reconcile_interval_s, 30);
    assert!(c.detect_steam);
    assert!(!c.vram_heuristic);
    assert_eq!(c.vram_game_threshold_mb, 4000);
    assert_eq!(
        c.gpu_allowlist,
        vec!["ollama", "kwin_wayland", "plasmashell", "Xwayland"]
    );

    assert_eq!(c.managed_units.len(), 2);
    let units = c.resolved_units();
    assert_eq!(units.len(), 2);
    assert_eq!(units[0].unit, "ollama.service");
    assert!(units[0].eager_restart);
    assert_eq!(units[0].vram_match.as_deref(), Some("ollama"));
    assert_eq!(units[1].unit, "asr-runner.service");
    assert!(!units[1].eager_restart);
    assert_eq!(units[1].vram_match.as_deref(), Some("asr-runner"));

    assert_eq!(c.game_patterns.len(), 2);
    assert_eq!(c.game_patterns[0].name, "heroic");
    assert_eq!(c.game_patterns[0].match_substr, "Heroic");
    assert_eq!(c.game_patterns[1].name, "quo\"te\\back");
    assert_eq!(c.game_patterns[1].match_substr, "Has\"Quote\\Back");
}

#[test]
fn unknown_key_after_managed_units_table_is_rejected() {
    let rendered = r#"# Managed by Ansible - DO NOT EDIT MANUALLY
# gpu-arbiter daemon config. Keys map 1:1 to the serde Config struct in
# gpu-arbiter src/config.rs (TOML key = gpu_arbiter_* var minus the prefix).

# String values are escaped (`\` and `"`) so a quote in any Ansible var can't
# break out of its TOML string and inject arbitrary config.
enabled = true
port = 48750
ollama_unit = "ollama.service"
eager_ollama = true
eviction_timeout_s = 5
vram_free_threshold_mb = 2000
reconcile_interval_s = 30

# Multi-tenant eviction (v0.3.0+). When this list is present it TAKES PRECEDENCE
# over the legacy ollama_unit/eager_ollama keys above. Eviction runs in order.
[[managed_units]]
unit = "ollama.service"
eager_restart = true
vram_match = "ollama"
[[managed_units]]
unit = "asr-runner.service"
eager_restart = false
vram_match = "asr-runner"

# --- detection ---
detect_steam = true
vram_heuristic = false
vram_game_threshold_mb = 4000
gpu_allowlist = ["ollama", "kwin_wayland", "plasmashell", "Xwayland"]

[[game_patterns]]
name = "heroic"
match = "Heroic"
"#;
    let err = Config::from_toml(rendered).unwrap_err();
    assert!(matches!(err, ConfigError::Parse(_)));
    assert!(
        err.message().contains("detect_steam"),
        "error should name the first key misplaced into the trailing \
         [[managed_units]] table (asr-runner.service), not silently apply \
         defaults or attribute to a different unit: {err:?}"
    );
}

#[test]
fn each_key_reaches_its_field() {
    let c = Config::from_toml(
        r#"
        enabled = false
        port = 1
        bind = "10.0.0.1"
        ollama_unit = "o"
        eager_ollama = false
        eviction_timeout_s = 2
        vram_free_threshold_mb = 3
        reconcile_interval_s = 4
        detect_steam = false
        vram_heuristic = true
        vram_game_threshold_mb = 5
        gpu_allowlist = []
        presence_detection = false
        presence_idle_threshold_s = 6
        gpu_backend = "amd"
        socket_path = "s"
        game_priority = 255
        yield_timeout_s = 7
        [[managed_units]]
        unit = "u"
        eager_restart = false
        vram_match = "v"
        kind = "k"
        introspect_cmd = "i"
        priority = 0
        busy_cmd = "b c"
        yield_cmd = ["y"]
        resume_cmd = []
        yield_timeout_s = 8
        [[game_patterns]]
        name = "n"
        match = "m"
        exclude = ["x", "z"]
        "#,
    )
    .unwrap();
    assert!(!c.enabled && !c.eager_ollama && !c.detect_steam && !c.presence_detection);
    assert!(c.vram_heuristic);
    assert_eq!((c.port, c.bind, c.ollama_unit.as_str()), (1, IpAddr::V4([10, 0, 0, 1]), "o"));
    assert_eq!(c.eviction_timeout_s, 2);
    assert_eq!(c.vram_free_threshold_mb, 3);
    assert_eq!(c.reconcile_interval_s, 4);
    assert_eq!(c.vram_game_threshold_mb, 5);
    assert!(c.gpu_allowlist.is_empty());
    assert_eq!(c.presence_idle_threshold_s, 6);
    assert_eq!(c.gpu_backend, GpuBackendKind::Amd);
    assert_eq!(c.socket_path, "s");
    assert_eq!(c.game_priority, 255);
    assert_eq!(c.yield_timeout_s, 7);
    let u = &c.units[0];
    assert_eq!(u.unit, "u");
    assert!(!u.eager_restart);
    assert_eq!(u.vram_match.as_deref(), Some("v"));
    assert_eq!(u.kind.as_deref(), Some("k"));
    assert_eq!(u.introspect_cmd.as_deref(), Some("i"));
    assert_eq!(u.priority, 0);
    assert_eq!(u.busy_cmd.as_ref().unwrap().argv(), ["b", "c"]);
    assert_eq!(u.yield_cmd.as_ref().unwrap().argv(), ["y"]);
    assert!(u.resume_cmd.as_ref().unwrap().argv().is_empty());
    assert_eq!(u.yield_timeout_s, Some(8));
    assert_eq!(c.game_patterns[0].exclude, vec!["x", "z"]);
    assert_eq!(c.managed_units, c.units);
}

#[test]
fn values_out_of_range_are_refused() {
    for text in [
        "port = 65536",
        "port = -1",
        "port = 1.5",
        "eviction_timeout_s = -1",
        "game_priority = 256",
        "enabled = 1",
        "gpu_allowlist = [1]",
        "gpu_allowlist = \"ollama\"",
        "managed_units = 3",
        "managed_units = [3]",
        "[[managed_units]]\neager_restart = true",
        "[[managed_units]]\nunit = \"u\"\npriority = 300",
        "[[managed_units]]\nunit = \"u\"\nstop_cmd = 5",
        "[[game_patterns]]\nname = \"n\"",
        "port = ",
    ] {
        assert!(
            matches!(Config::from_toml(text), Err(ConfigError::Parse(_))),
            "accepted: {text}"
        );
    }
}

#[test]
fn unknown_key_is_named_first() {
    let doc = vec![
        ("port".to_string(), Toml::Text("x".to_string())),
        ("prot".to_string(), Toml::Int(1)),
    ];
    assert_eq!(
        Config::from_document(&doc, Platform::Unix).unwrap_err().message(),
        "parsing config: unknown field `prot`"
    );
    let doc = vec![("port".to_string(), Toml::Int(9000))];
    assert_eq!(Config::from_document(&doc, Platform::Unix).unwrap().port, 9000);
    let doc = vec![("port".to_string(), Toml::Other)];
    assert!(Config::from_document(&doc, Platform::Unix).is_err());
}

#[test]
fn unreadable_file_is_an_io_error() {
    let file = ConfigFile::Unreadable("denied".into());
    let e = Config::load("/etc/x.toml", file, Platform::Unix).unwrap_err();
    assert!(matches!(e, ConfigError::Io { .. }));
    assert_eq!(e.message(), "reading config file /etc/x.toml: denied");
    let c = Config::load("p", ConfigFile::Text("port = 7".into()), Platform::Unix).unwrap();
    assert_eq!(c.port, 7);
}

fn fault(toml: &str) -> String {
    match Config::from_toml(toml).unwrap_err() {
        ConfigError::Parse(m) => m,
        e => panic!("{e:?}"),
    }
}

#[test]
fn errors_name_the_key() {
    assert_eq!(fault("detect_stema = true"), "unknown field `detect_stema`");
    assert_eq!(
        fault("[[managed_units]]\nunit = \"a\"\nstop_cdm = \"x\""),
        "unknown field `stop_cdm`"
    );
    assert_eq!(
        fault("[[game_patterns]]\nname = \"a\"\nmatch = \"b\"\nexcludes = []"),
        "unknown field `excludes`"
    );
    assert_eq!(
        fault("[[managed_units]]\neager_restart = true"),
        "missing or invalid value for `unit`"
    );
    assert_eq!(
        fault("port = 70000\nbind = \"x\""),
        "missing or invalid value for `port`"
    );
    assert_eq!(
        fault("bind = \"x\""),
        "missing or invalid value for `bind`"
    );
    assert_eq!(
        fault("managed_units = [1]"),
        "missing or invalid value for `managed_units`"
    );
    assert_eq!(
        fault("game_patterns = 1"),
        "missing or invalid value for `game_patterns`"
    );
}

#[test]
fn windows_has_no_control_socket_of_its_own() {
    assert_eq!(default_socket_path(Platform::Windows), "");
    let c = Config::from_toml_on("", Platform::Windows).unwrap();
    assert_eq!(c.socket_path, "");
    assert_eq!(c, Config::stock(Platform::Windows));
    let c = Config {
        socket_path: "/run/gpu-arbiter/gpu-arbiter.sock".into(),
        ..c
    };
    assert_eq!(c, Config::default());
    let c = Config::from_toml_on("socket_path = \"x\"", Platform::Windows).unwrap();
    assert_eq!(c.socket_path, "x");
    let c = Config::load("p", ConfigFile::Missing, Platform::Windows).unwrap();
    assert_eq!(c.socket_path, "");
}

#[test]
fn large_integers_are_numbers_too() {
    let c = Config::from_toml("eviction_timeout_s = 18446744073709551615").unwrap();
    assert_eq!(c.eviction_timeout_s, u64::MAX);
    let c = Config::from_toml("eviction_timeout_s = 0xFFFF_FFFF_FFFF_FFFF").unwrap();
    assert_eq!(c.eviction_timeout_s, u64::MAX);
    let c = Config::from_toml("port = 0o17").unwrap();
    assert_eq!(c.port, 15);
    for text in [
        "eviction_timeout_s = 18446744073709551616",
        "eviction_timeout_s = -1",
        "eviction_timeout_s = 999999999999999999999999999999999999999999999999",
        "eviction_timeout_s = 1.0",
    ] {
        assert_eq!(
            fault(text),
            "missing or invalid value for `eviction_timeout_s`",
            "{text}"
        );
    }
}

#[test]
fn a_list_gives_the_values_in_their_order() {
    let c = Config::from_toml(
        r#"
        managed_units = [["a.service", false, "runner"], { unit = "b" }, ["c"]]
        game_patterns = [["heroic", "Heroic"], ["x", "y", ["z"], 1]]
        "#,
    )
    .unwrap();
    assert_eq!(c.units.len(), 3);
    assert_eq!(c.units[0].unit, "a.service");
    assert!(!c.units[0].eager_restart);
    assert_eq!(c.units[0].vram_match.as_deref(), Some("runner"));
    assert_eq!(c.units[0].priority, 50);
    assert_eq!(c.units[2].unit, "c");
    assert!(c.units[2].eager_restart);
    assert_eq!(c.game_patterns[0].match_substr, "Heroic");
    assert_eq!(c.game_patterns[1].exclude, vec!["z"]);
    assert_eq!(
        fault("managed_units = [[]]"),
        "missing or invalid value for `unit`"
    );
    assert_eq!(
        fault("managed_units = [[\"a\", 1]]"),
        "missing or invalid value for `eager_restart`"
    );
    assert_eq!(
        fault("game_patterns = [[\"a\"]]"),
        "missing or invalid value for `match`"
    );
}

#[test]
fn a_vendor_can_be_the_only_key_of_a_table() {
    let c = Config::from_toml("gpu_backend = { amd = {} }").unwrap();
    assert_eq!(c.gpu_backend, GpuBackendKind::Amd);
    let c = Config::from_toml("gpu_backend = { nvidia = [] }").unwrap();
    assert_eq!(c.gpu_backend, GpuBackendKind::Nvidia);
    for text in [
        "gpu_backend = {}",
        "gpu_backend = { amd = {}, nvidia = {} }",
        "gpu_backend = { amd = 1 }",
        "gpu_backend = { amd = [1] }",
        "gpu_backend = { AMD = {} }",
        "gpu_backend = [\"amd\"]",
    ] {
        assert_eq!(
            fault(text),
            "missing or invalid value for `gpu_backend`",
            "{text}"
        );
    }
}

#[test]
fn copies_are_equal() {
    let doc = Toml::Table(vec![
        ("a".into(), Toml::List(vec![Toml::Int(-1), Toml::Other])),
        ("b".into(), Toml::Table(vec![("c".into(), Toml::Bool(true))])),
        ("d".into(), Toml::Text("x".into())),
    ]);
    assert_eq!(format!("{:?}", doc.copy()), format!("{doc:?}"));
}
